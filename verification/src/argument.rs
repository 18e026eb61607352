//! Probe arguments: the text that tells a tool where each argument lives.
//!
//! For every argument the note carries one segment, `-W@operand`: a minus
//! sign because arguments are signed, the operand's width `W` in bytes, an
//! at sign, and the operand reference that the code generator chose.
//! Segments are separated by one space and stand in declaration order.

use crate::platform::Width;
use vstd::prelude::*;

verus! {

/// Separator between two segments.
pub const SPACE: u8 = 0x20;

/// Sign prefix of a segment: every argument is signed.
pub const MINUS: u8 = 0x2d;

/// Separator between a segment's width and its operand reference.
pub const AT: u8 = 0x40;

impl Width {
    /// The decimal digit that a segment shows for this width.
    pub open spec fn digit(self) -> u8 {
        match self {
            Width::Four => 0x34,
            Width::Eight => 0x38,
        }
    }

    /// The number of values that fit in this width: 2 to the power of its
    /// number of bits.
    pub open spec fn modulus(self) -> int {
        match self {
            Width::Four => 0x1_0000_0000,
            Width::Eight => 0x1_0000_0000_0000_0000,
        }
    }
}

/// An argument's value as a signed integer of `width` bytes: the one value
/// from -modulus/2 to modulus/2 - 1 that differs from `value` by a
/// multiple of the modulus. A value that fits is kept.
pub open spec fn reduced(value: int, width: Width) -> int {
    let low = value % width.modulus();
    if low < width.modulus() / 2 {
        low
    } else {
        low - width.modulus()
    }
}

/// Reduce an argument to a signed integer of `width` bytes, as a cast to the
/// target's pointer-sized signed integer does.
pub fn reduce(value: i128, width: Width) -> (operand: i64)
    ensures
        operand == reduced(value as int, width),
        -(width.modulus() / 2) <= operand < width.modulus() / 2,
        (operand - value) % width.modulus() == 0,
        -(width.modulus() / 2) <= value < width.modulus() / 2 ==> operand == value,
{
    let modulus: i128 = match width {
        Width::Four => 0x1_0000_0000,
        Width::Eight => 0x1_0000_0000_0000_0000,
    };
    let low: i128 = if value >= 0 {
        value % modulus
    } else {
        let below: i128 = -(value + 1);
        proof {
            lemma_remainder_of_negative(value as int, modulus as int);
        }
        modulus - 1 - below % modulus
    };
    proof {
        lemma_reduced_congruent(value as int, width);
    }
    if low < modulus / 2 {
        low as i64
    } else {
        (low - modulus) as i64
    }
}

/// The remainder of a negative number, from the remainder of a number that
/// is not negative.
proof fn lemma_remainder_of_negative(value: int, modulus: int)
    requires
        value < 0,
        modulus > 0,
    ensures
        value % modulus == modulus - 1 - (-(value + 1)) % modulus,
{
    let below = -(value + 1);
    let q = below / modulus;
    let r = below % modulus;
    assert(below == modulus * q + r) by {
        vstd::arithmetic::div_mod::lemma_fundamental_div_mod(below, modulus);
    }
    assert(0 <= r < modulus) by {
        vstd::arithmetic::div_mod::lemma_mod_bound(below, modulus);
    }
    assert(value == modulus * (-q - 1) + (modulus - 1 - r)) by (nonlinear_arith)
        requires
            below == modulus * q + r,
            below == -(value + 1),
    ;
    vstd::arithmetic::div_mod::lemma_fundamental_div_mod_converse(
        value,
        modulus,
        -q - 1,
        modulus - 1 - r,
    );
}

/// The reduced value lies in the signed range of the width, differs from the
/// value by a multiple of the modulus, and is the value itself if that fits.
pub proof fn lemma_reduced_congruent(value: int, width: Width)
    ensures
        -(width.modulus() / 2) <= reduced(value, width) < width.modulus() / 2,
        (reduced(value, width) - value) % width.modulus() == 0,
        -(width.modulus() / 2) <= value < width.modulus() / 2 ==> reduced(value, width) == value,
{
    let m = width.modulus();
    let q = value / m;
    let low = value % m;
    vstd::arithmetic::div_mod::lemma_fundamental_div_mod(value, m);
    vstd::arithmetic::div_mod::lemma_mod_bound(value, m);
    assert(low - value == m * (-q)) by (nonlinear_arith)
        requires
            value == m * q + low,
    ;
    assert(low - m - value == m * (-q - 1)) by (nonlinear_arith)
        requires
            value == m * q + low,
    ;
    vstd::arithmetic::div_mod::lemma_fundamental_div_mod_converse(low - value, m, -q, 0);
    vstd::arithmetic::div_mod::lemma_fundamental_div_mod_converse(low - m - value, m, -q - 1, 0);
    if -(m / 2) <= value < m / 2 {
        if value >= 0 {
            vstd::arithmetic::div_mod::lemma_small_mod(value as nat, m as nat);
        } else {
            vstd::arithmetic::div_mod::lemma_fundamental_div_mod_converse(value, m, -1, value + m);
        }
    }
}

/// The segment for one argument: `-W@` and the operand reference.
pub open spec fn segment(width: Width, operand: Seq<u8>) -> Seq<u8> {
    seq![MINUS, width.digit(), AT] + operand
}

/// The descriptor for a probe's arguments: their segments in declaration
/// order, one space between neighbours, empty for a probe without arguments.
pub open spec fn descriptor(width: Width, operands: Seq<Seq<u8>>) -> Seq<u8>
    decreases operands.len(),
{
    if operands.len() == 0 {
        Seq::empty()
    } else if operands.len() == 1 {
        segment(width, operands[0])
    } else {
        descriptor(width, operands.drop_last()) + seq![SPACE] + segment(width, operands.last())
    }
}

/// Whether `operand` can stand in a segment: it is not empty, and it holds
/// no space, which would end the segment early, and no NUL, which would end
/// the whole descriptor.
pub open spec fn is_operand(operand: Seq<u8>) -> bool {
    &&& operand.len() > 0
    &&& forall|i: int| 0 <= i < operand.len() ==> operand[i] != SPACE && operand[i] != 0
}

/// The operand reference that stands in a template until the code
/// generator has chosen a register: `{}`.
pub open spec fn placeholder() -> Seq<u8> {
    seq![0x7bu8, 0x7du8]
}

/// `text` cut at every space. A text with n spaces has n + 1 pieces, some of
/// which may be empty.
pub open spec fn split(text: Seq<u8>) -> Seq<Seq<u8>>
    decreases text.len(),
{
    if text.len() == 0 {
        seq![Seq::empty()]
    } else {
        let front = split(text.drop_last());
        if text.last() == SPACE {
            front.push(Seq::empty())
        } else {
            front.drop_last().push(front.last().push(text.last()))
        }
    }
}

/// The segments that a tool reads out of a descriptor: none from the empty
/// text, else the pieces between its spaces.
pub open spec fn segments(text: Seq<u8>) -> Seq<Seq<u8>> {
    if text.len() == 0 {
        Seq::empty()
    } else {
        split(text)
    }
}

/// The operand width that a segment announces, if it starts as a segment
/// must: a minus sign, the digit 4 or 8, an at sign.
pub open spec fn segment_width(segment: Seq<u8>) -> Option<Width> {
    if segment.len() >= 3 && segment[0] == MINUS && segment[2] == AT {
        if segment[1] == Width::Four.digit() {
            Some(Width::Four)
        } else if segment[1] == Width::Eight.digit() {
            Some(Width::Eight)
        } else {
            None
        }
    } else {
        None
    }
}

/// Check that `operand` can stand in a segment.
pub fn check_operand(operand: &[u8]) -> (ok: bool)
    ensures
        ok == is_operand(operand@),
{
    if operand.len() == 0 {
        return false;
    }
    let mut i: usize = 0;
    while i < operand.len()
        invariant
            i <= operand.len(),
            operand.len() > 0,
            forall|j: int| 0 <= j < i ==> operand@[j] != SPACE && operand@[j] != 0,
        decreases operand.len() - i,
    {
        if operand[i] == SPACE || operand[i] == 0 {
            return false;
        }
        i += 1;
    }
    true
}

/// Write the descriptor for arguments whose operand references are
/// `operands`, in declaration order. There is no descriptor if one of the
/// references is empty or holds a space or a NUL.
pub fn argument_descriptor(width: Width, operands: &Vec<Vec<u8>>) -> (text: Option<Vec<u8>>)
    ensures
        text is Some <==> forall|i: int|
            0 <= i < operands.len() ==> is_operand(#[trigger] operands.deep_view()[i]),
        text matches Some(t) ==> t@ == descriptor(width, operands.deep_view()),
{
    let digit: u8 = match width {
        Width::Four => 0x34,
        Width::Eight => 0x38,
    };
    let mut text: Vec<u8> = Vec::new();
    let mut i: usize = 0;
    while i < operands.len()
        invariant
            i <= operands.len(),
            digit == width.digit(),
            text@ == descriptor(width, operands.deep_view().take(i as int)),
            forall|j: int| 0 <= j < i ==> is_operand(#[trigger] operands.deep_view()[j]),
        decreases operands.len() - i,
    {
        let ok = check_operand(operands[i].as_slice());
        assert(operands.deep_view()[i as int] == operands[i as int]@);
        if !ok {
            return None;
        }
        let ghost before = text@;
        if i > 0 {
            text.push(SPACE);
        }
        text.push(MINUS);
        text.push(digit);
        text.push(AT);
        text.extend_from_slice(operands[i].as_slice());
        proof {
            let all = operands.deep_view();
            let next = all.take(i + 1);
            assert(next.drop_last() == all.take(i as int));
            assert(next.last() == operands[i as int]@);
            assert(seq![MINUS, digit, AT] + operands[i as int]@ == segment(width, next.last()));
            if i > 0 {
                assert(text@ == before + seq![SPACE] + segment(width, next.last()));
            } else {
                assert(text@ == segment(width, next.last()));
            }
        }
        i += 1;
    }
    proof {
        assert(operands.deep_view().take(i as int) == operands.deep_view());
    }
    Some(text)
}

/// Write the descriptor template for `count` arguments: every operand
/// reference is still the placeholder `{}`.
pub fn argument_template(width: Width, count: usize) -> (text: Vec<u8>)
    ensures
        text@ == descriptor(width, Seq::new(count as nat, |i: int| placeholder())),
{
    let digit: u8 = match width {
        Width::Four => 0x34,
        Width::Eight => 0x38,
    };
    let ghost all = Seq::new(count as nat, |i: int| placeholder());
    let mut text: Vec<u8> = Vec::new();
    let mut i: usize = 0;
    while i < count
        invariant
            i <= count,
            digit == width.digit(),
            all == Seq::new(count as nat, |i: int| placeholder()),
            text@ == descriptor(width, all.take(i as int)),
        decreases count - i,
    {
        let ghost before = text@;
        if i > 0 {
            text.push(SPACE);
        }
        text.push(MINUS);
        text.push(digit);
        text.push(AT);
        text.push(0x7b);
        text.push(0x7d);
        proof {
            let next = all.take(i + 1);
            assert(next.drop_last() == all.take(i as int));
            assert(next.last() == placeholder());
            assert(seq![MINUS, digit, AT, 0x7bu8, 0x7du8] == segment(width, next.last()));
            if i > 0 {
                assert(text@ == before + seq![SPACE] + segment(width, next.last()));
            } else {
                assert(text@ == segment(width, next.last()));
            }
        }
        i += 1;
    }
    proof {
        assert(all.take(i as int) == all);
    }
    text
}

/// Appending a text without spaces lengthens the last piece and adds none.
proof fn lemma_split_append(text: Seq<u8>, tail: Seq<u8>)
    requires
        forall|i: int| 0 <= i < tail.len() ==> tail[i] != SPACE,
    ensures
        split(text).len() >= 1,
        split(text + tail) == split(text).drop_last().push(split(text).last() + tail),
    decreases tail.len(),
{
    lemma_split_nonempty(text);
    if tail.len() == 0 {
        assert(text + tail == text);
        assert(split(text).last() + tail == split(text).last());
        assert(split(text).drop_last().push(split(text).last()) == split(text));
    } else {
        let shorter = tail.drop_last();
        lemma_split_append(text, shorter);
        assert((text + tail).drop_last() == text + shorter);
        assert((text + tail).last() == tail.last());
        assert((split(text).last() + shorter).push(tail.last()) == split(text).last() + tail);
        let front = split(text + shorter);
        assert(front.drop_last() == split(text).drop_last());
    }
}

/// Every text has at least one piece.
proof fn lemma_split_nonempty(text: Seq<u8>)
    ensures
        split(text).len() >= 1,
    decreases text.len(),
{
    if text.len() > 0 {
        lemma_split_nonempty(text.drop_last());
    }
}

/// A space and a text without spaces add exactly that text as a new piece.
proof fn lemma_split_next(text: Seq<u8>, tail: Seq<u8>)
    requires
        forall|i: int| 0 <= i < tail.len() ==> tail[i] != SPACE,
    ensures
        split(text + seq![SPACE] + tail) == split(text).push(tail),
{
    let spaced = text + seq![SPACE];
    assert(spaced.drop_last() == text);
    assert(split(spaced) == split(text).push(Seq::empty()));
    lemma_split_append(spaced, tail);
    assert(Seq::<u8>::empty() + tail == tail);
    assert(split(spaced).drop_last() == split(text));
}

/// A segment holds no space if its operand holds none.
proof fn lemma_segment_spaceless(width: Width, operand: Seq<u8>)
    requires
        is_operand(operand),
    ensures
        forall|i: int|
            0 <= i < segment(width, operand).len() ==> segment(width, operand)[i] != SPACE,
        segment(width, operand).len() == 3 + operand.len(),
{
}

/// A tool that cuts a descriptor at its spaces gets back the segments that
/// it was written from, one for each argument and in declaration order.
pub proof fn lemma_segments_of_descriptor(width: Width, operands: Seq<Seq<u8>>)
    requires
        forall|i: int| 0 <= i < operands.len() ==> is_operand(#[trigger] operands[i]),
    ensures
        segments(descriptor(width, operands)) == Seq::new(
            operands.len(),
            |i: int| segment(width, operands[i]),
        ),
    decreases operands.len(),
{
    let expected = Seq::new(operands.len(), |i: int| segment(width, operands[i]));
    if operands.len() == 0 {
        assert(segments(descriptor(width, operands)) == expected);
    } else if operands.len() == 1 {
        let only = segment(width, operands[0]);
        lemma_segment_spaceless(width, operands[0]);
        lemma_split_append(Seq::empty(), only);
        assert(Seq::<u8>::empty() + only == only);
        assert(split(Seq::<u8>::empty()) == seq![Seq::<u8>::empty()]);
        assert(split(only) == seq![only]);
        assert(segments(descriptor(width, operands)) == expected);
    } else {
        let front = operands.drop_last();
        let last = segment(width, operands.last());
        lemma_segments_of_descriptor(width, front);
        lemma_segment_spaceless(width, operands.last());
        lemma_segment_spaceless(width, front[0]);
        lemma_descriptor_len(width, front);
        lemma_split_next(descriptor(width, front), last);
        assert(segments(descriptor(width, operands)) == expected);
    }
}

/// The descriptor of at least one argument is not empty.
proof fn lemma_descriptor_len(width: Width, operands: Seq<Seq<u8>>)
    requires
        operands.len() > 0,
    ensures
        descriptor(width, operands).len() >= 3,
    decreases operands.len(),
{
    if operands.len() > 1 {
        lemma_descriptor_len(width, operands.drop_last());
    }
}

/// The descriptor of a probe with N arguments holds exactly N segments; in
/// particular it is empty for a probe without arguments.
pub proof fn lemma_segment_count(width: Width, operands: Seq<Seq<u8>>)
    requires
        forall|i: int| 0 <= i < operands.len() ==> is_operand(#[trigger] operands[i]),
    ensures
        segments(descriptor(width, operands)).len() == operands.len(),
        operands.len() == 0 <==> descriptor(width, operands).len() == 0,
{
    lemma_segments_of_descriptor(width, operands);
    if operands.len() > 0 {
        lemma_descriptor_len(width, operands);
    }
}

/// Every segment of a descriptor announces the width that the descriptor was
/// written for, and so the same width as every other.
pub proof fn lemma_segment_widths(width: Width, operands: Seq<Seq<u8>>)
    requires
        forall|i: int| 0 <= i < operands.len() ==> is_operand(#[trigger] operands[i]),
    ensures
        forall|i: int|
            0 <= i < operands.len() ==> segment_width(
                #[trigger] segments(descriptor(width, operands))[i],
            ) == Some(width),
{
    lemma_segments_of_descriptor(width, operands);
}

} // verus!
