//! The note: the record that describes one probe site to a tool.
//!
//! Notes stand side by side in a section of their own, outside the code
//! stream. A tool walks the section record by record; it never runs code to
//! find a probe.

use crate::argument::{
    argument_descriptor, descriptor, is_operand, lemma_segment_count, lemma_segment_widths,
    segment_width, segments,
};
use crate::platform::Width;
use vstd::prelude::*;

verus! {

/// The order in which the bytes of a number stand in the binary.
#[derive(Clone, Copy, Debug, PartialEq, Eq, Structural)]
pub enum ByteOrder {
    /// Least significant byte first.
    Little,
    /// Most significant byte first.
    Big,
}

/// What is fixed once for a whole binary: the width of its pointers and the
/// order of its bytes.
#[derive(Clone, Copy, Debug, PartialEq, Eq, Structural)]
pub struct Layout {
    pub width: Width,
    pub order: ByteOrder,
}

/// The tag that marks a note as a probe descriptor.
pub const NOTE_TYPE: u32 = 3;

/// The `size` low bytes of `value`, least significant first.
pub open spec fn little_endian(value: nat, size: nat) -> Seq<u8>
    decreases size,
{
    if size == 0 {
        Seq::empty()
    } else {
        seq![(value % 256) as u8] + little_endian(value / 256, (size - 1) as nat)
    }
}

/// The number that bytes stand for when the least significant comes first.
pub open spec fn little_endian_value(bytes: Seq<u8>) -> nat
    decreases bytes.len(),
{
    if bytes.len() == 0 {
        0
    } else {
        bytes[0] as nat + 256 * little_endian_value(bytes.drop_first())
    }
}

/// A number as a field of `size` bytes in the given byte order.
pub open spec fn field(order: ByteOrder, value: nat, size: nat) -> Seq<u8> {
    match order {
        ByteOrder::Little => little_endian(value, size),
        ByteOrder::Big => little_endian(value, size).reverse(),
    }
}

/// The number that a field holds.
pub open spec fn field_value(order: ByteOrder, bytes: Seq<u8>) -> nat {
    match order {
        ByteOrder::Little => little_endian_value(bytes),
        ByteOrder::Big => little_endian_value(bytes.reverse()),
    }
}

/// A field is as long as it was asked to be.
pub proof fn lemma_field_len(order: ByteOrder, value: nat, size: nat)
    ensures
        field(order, value, size).len() == size,
{
    lemma_little_endian_len(value, size);
}

proof fn lemma_little_endian_len(value: nat, size: nat)
    ensures
        little_endian(value, size).len() == size,
    decreases size,
{
    if size > 0 {
        lemma_little_endian_len(value / 256, (size - 1) as nat);
    }
}

/// Append `value` to `out` as a field of `size` bytes.
fn write_field(out: &mut Vec<u8>, order: ByteOrder, value: u64, size: usize)
    requires
        size <= 8,
    ensures
        final(out)@ == old(out)@ + field(order, value as nat, size as nat),
{
    let mut digits: Vec<u8> = Vec::new();
    let mut rest: u64 = value;
    let mut i: usize = 0;
    while i < size
        invariant
            i <= size,
            digits@.len() == i,
            digits@ + little_endian(rest as nat, (size - i) as nat) == little_endian(
                value as nat,
                size as nat,
            ),
        decreases size - i,
    {
        let ghost before = digits@;
        let digit: u8 = (rest % 256) as u8;
        digits.push(digit);
        proof {
            let tail = little_endian((rest / 256) as nat, (size - i - 1) as nat);
            assert(little_endian(rest as nat, (size - i) as nat) == seq![digit] + tail);
            assert(before + (seq![digit] + tail) == digits@ + tail);
        }
        rest = rest / 256;
        i += 1;
    }
    assert(digits@ == little_endian(value as nat, size as nat)) by {
        assert(little_endian(rest as nat, 0) == Seq::<u8>::empty());
        assert(digits@ + Seq::<u8>::empty() == digits@);
    }
    let ghost start = out@;
    match order {
        ByteOrder::Little => {
            let mut j: usize = 0;
            while j < size
                invariant
                    j <= size,
                    digits@.len() == size,
                    out@ == start + digits@.take(j as int),
                decreases size - j,
            {
                out.push(digits[j]);
                assert(digits@.take(j + 1) == digits@.take(j as int).push(digits@[j as int]));
                j += 1;
            }
            assert(digits@.take(size as int) == digits@);
        },
        ByteOrder::Big => {
            let mut j: usize = 0;
            while j < size
                invariant
                    j <= size,
                    digits@.len() == size,
                    out@ == start + digits@.reverse().take(j as int),
                decreases size - j,
            {
                out.push(digits[size - 1 - j]);
                assert(digits@.reverse().take(j + 1) == digits@.reverse().take(j as int).push(
                    digits@[size - 1 - j],
                ));
                j += 1;
            }
            assert(digits@.reverse().take(size as int) == digits@.reverse());
        },
    }
}

/// One probe site of a binary.
#[derive(Debug)]
pub struct Site {
    /// The name that groups related probes.
    pub provider: Vec<u8>,
    /// The probe's name within its provider.
    pub name: Vec<u8>,
    /// The operand reference of each argument, in declaration order.
    pub operands: Vec<Vec<u8>>,
    /// The address of the site's no-op instruction.
    pub location: u64,
    /// The address of the site's semaphore; zero for a probe that is always
    /// on, which has none.
    pub semaphore: u64,
}

/// A probe site as contracts see it.
pub struct SiteView {
    pub provider: Seq<u8>,
    pub name: Seq<u8>,
    pub operands: Seq<Seq<u8>>,
    pub location: u64,
    pub semaphore: u64,
}

impl View for Site {
    type V = SiteView;

    open spec fn view(&self) -> SiteView {
        SiteView {
            provider: self.provider@,
            name: self.name@,
            operands: self.operands.deep_view(),
            location: self.location,
            semaphore: self.semaphore,
        }
    }
}

/// Whether `text` has the shape of an identifier: it is not empty, it does
/// not start with a digit, and each byte is an ASCII letter, an ASCII digit,
/// an underscore, or part of a character beyond ASCII.
pub open spec fn is_identifier(text: Seq<u8>) -> bool {
    &&& text.len() > 0
    &&& !is_digit(text[0])
    &&& forall|i: int| 0 <= i < text.len() ==> is_identifier_byte(#[trigger] text[i])
}

/// Whether `byte` is an ASCII decimal digit.
pub open spec fn is_digit(byte: u8) -> bool {
    0x30 <= byte <= 0x39
}

/// Whether `byte` can stand in an identifier.
pub open spec fn is_identifier_byte(byte: u8) -> bool {
    ||| 0x41 <= byte <= 0x5a
    ||| 0x61 <= byte <= 0x7a
    ||| is_digit(byte)
    ||| byte == 0x5f
    ||| byte >= 0x80
}

/// The name that every probe note carries, with the NUL that ends it:
/// `stapsdt`.
pub open spec fn owner() -> Seq<u8> {
    seq![0x73u8, 0x74u8, 0x61u8, 0x70u8, 0x73u8, 0x64u8, 0x74u8, 0u8]
}

/// A text followed by the NUL that ends it.
pub open spec fn terminated(text: Seq<u8>) -> Seq<u8> {
    text + seq![0u8]
}

/// The number of bytes that bring a length of `len` up to a multiple of four.
pub open spec fn padding(len: nat) -> nat {
    ((4 - len % 4) % 4) as nat
}

/// `count` zero bytes.
pub open spec fn zeros(count: nat) -> Seq<u8> {
    Seq::new(count, |i: int| 0u8)
}

/// Whether an address can stand in a pointer-sized field.
pub open spec fn fits(width: Width, address: u64) -> bool {
    address < width.modulus()
}

/// The body of a site's note: the addresses of the no-op, of the binary's
/// base anchor and of the semaphore, each pointer-sized, then provider, name
/// and argument descriptor, each ended by a NUL.
pub open spec fn description(layout: Layout, base: u64, site: SiteView) -> Seq<u8> {
    field(layout.order, site.location as nat, layout.width.size())
        + field(layout.order, base as nat, layout.width.size())
        + field(layout.order, site.semaphore as nat, layout.width.size())
        + terminated(site.provider)
        + terminated(site.name)
        + terminated(descriptor(layout.width, site.operands))
}

/// The length of a note's body.
pub open spec fn description_len(layout: Layout, site: SiteView) -> nat {
    3 * layout.width.size() + site.provider.len() + site.name.len() + descriptor(
        layout.width,
        site.operands,
    ).len() + 3
}

/// Whether a site can be described by a note: every address fits the
/// pointer width, provider and name are identifiers, every operand reference
/// can stand in a segment, and the body's length fits its four-byte field.
pub open spec fn representable(layout: Layout, base: u64, site: SiteView) -> bool {
    &&& fits(layout.width, site.location)
    &&& fits(layout.width, base)
    &&& fits(layout.width, site.semaphore)
    &&& is_identifier(site.provider)
    &&& is_identifier(site.name)
    &&& forall|i: int| 0 <= i < site.operands.len() ==> is_operand(#[trigger] site.operands[i])
    &&& description_len(layout, site) <= u32::MAX
}

/// The note of a site: three four-byte fields (the length of the owner's
/// name, the length of the body, the type tag), the owner's name, the body,
/// and zero bytes up to the next multiple of four.
pub open spec fn note(layout: Layout, base: u64, site: SiteView) -> Seq<u8> {
    let body = description(layout, base, site);
    field(layout.order, owner().len(), 4)
        + field(layout.order, body.len(), 4)
        + field(layout.order, NOTE_TYPE as nat, 4)
        + owner()
        + body
        + zeros(padding(body.len()))
}

/// The body of a note is as long as `description_len` says.
pub proof fn lemma_description_len(layout: Layout, base: u64, site: SiteView)
    ensures
        description(layout, base, site).len() == description_len(layout, site),
{
    lemma_field_len(layout.order, site.location as nat, layout.width.size());
    lemma_field_len(layout.order, base as nat, layout.width.size());
    lemma_field_len(layout.order, site.semaphore as nat, layout.width.size());
}

/// A note ends on a four-byte boundary.
pub proof fn lemma_note_len(layout: Layout, base: u64, site: SiteView)
    ensures
        note(layout, base, site).len() == 20 + description_len(layout, site) + padding(
            description_len(layout, site),
        ),
        note(layout, base, site).len() % 4 == 0,
{
    lemma_description_len(layout, base, site);
    let body = description(layout, base, site);
    lemma_field_len(layout.order, owner().len(), 4);
    lemma_field_len(layout.order, body.len(), 4);
    lemma_field_len(layout.order, NOTE_TYPE as nat, 4);
}

/// Check that `text` has the shape of an identifier.
pub fn check_identifier(text: &[u8]) -> (ok: bool)
    ensures
        ok == is_identifier(text@),
{
    if text.len() == 0 {
        return false;
    }
    if 0x30 <= text[0] && text[0] <= 0x39 {
        return false;
    }
    let mut i: usize = 0;
    while i < text.len()
        invariant
            i <= text.len(),
            forall|j: int| 0 <= j < i ==> is_identifier_byte(#[trigger] text@[j]),
        decreases text.len() - i,
    {
        let byte: u8 = text[i];
        let ok = (0x41 <= byte && byte <= 0x5a) || (0x61 <= byte && byte <= 0x7a) || (0x30 <= byte
            && byte <= 0x39) || byte == 0x5f || byte >= 0x80;
        if !ok {
            assert(!is_identifier_byte(text@[i as int]));
            return false;
        }
        i += 1;
    }
    true
}

/// Append `text` and the NUL that ends it to `out`.
fn write_terminated(out: &mut Vec<u8>, text: &[u8])
    ensures
        final(out)@ == old(out)@ + terminated(text@),
{
    let ghost start = out@;
    let mut i: usize = 0;
    while i < text.len()
        invariant
            i <= text.len(),
            out@ == start + text@.take(i as int),
        decreases text.len() - i,
    {
        out.push(text[i]);
        assert(text@.take(i + 1) == text@.take(i as int).push(text@[i as int]));
        i += 1;
    }
    assert(text@.take(i as int) == text@);
    out.push(0);
    assert(out@ == start + terminated(text@));
}

/// Append `count` zero bytes to `out`.
fn write_zeros(out: &mut Vec<u8>, count: usize)
    ensures
        final(out)@ == old(out)@ + zeros(count as nat),
{
    let ghost start = out@;
    let mut i: usize = 0;
    while i < count
        invariant
            i <= count,
            out@ == start + zeros(i as nat),
        decreases count - i,
    {
        out.push(0);
        assert(zeros((i + 1) as nat) == zeros(i as nat).push(0u8));
        i += 1;
    }
}

/// Check that `site` can be described, and write its argument descriptor.
fn check_site(layout: &Layout, base: u64, site: &Site) -> (arguments: Option<Vec<u8>>)
    ensures
        arguments is Some <==> representable(*layout, base, site@),
        arguments matches Some(text) ==> text@ == descriptor(layout.width, site@.operands),
{
    let limit: u64 = match layout.width {
        Width::Four => 0xffff_ffff,
        Width::Eight => 0xffff_ffff_ffff_ffff,
    };
    if site.location > limit || base > limit || site.semaphore > limit {
        return None;
    }
    if !check_identifier(site.provider.as_slice()) || !check_identifier(site.name.as_slice()) {
        return None;
    }
    match argument_descriptor(layout.width, &site.operands) {
        Some(text) => {
            let total: u128 = 3 * (layout.width.bytes() as u128) + site.provider.len() as u128
                + site.name.len() as u128 + text.len() as u128 + 3;
            if total > 0xffff_ffff {
                None
            } else {
                Some(text)
            }
        },
        None => None,
    }
}

/// Append the body of a note to `out`.
fn write_description(out: &mut Vec<u8>, layout: &Layout, base: u64, site: &Site, arguments: &Vec<u8>)
    requires
        arguments@ == descriptor(layout.width, site@.operands),
    ensures
        final(out)@ == old(out)@ + description(*layout, base, site@),
{
    let ghost start = out@;
    let size = layout.width.bytes();
    write_field(out, layout.order, site.location, size);
    write_field(out, layout.order, base, size);
    write_field(out, layout.order, site.semaphore, size);
    write_terminated(out, site.provider.as_slice());
    write_terminated(out, site.name.as_slice());
    write_terminated(out, arguments.as_slice());
    assert(out@ == start + description(*layout, base, site@));
}

/// Append the twelve bytes that start a note and the owner's name to `out`.
fn write_header(out: &mut Vec<u8>, order: ByteOrder, body_len: u32)
    ensures
        final(out)@ == old(out)@ + field(order, owner().len(), 4) + field(order, body_len as nat, 4)
            + field(order, NOTE_TYPE as nat, 4) + owner(),
{
    let ghost start = out@;
    write_field(out, order, 8, 4);
    write_field(out, order, body_len as u64, 4);
    write_field(out, order, NOTE_TYPE as u64, 4);
    let ghost fields = out@;
    out.push(0x73);
    out.push(0x74);
    out.push(0x61);
    out.push(0x70);
    out.push(0x73);
    out.push(0x64);
    out.push(0x74);
    out.push(0);
    assert(out@ == fields + owner());
}

/// Write the note of `site` for a binary of the given layout, whose base
/// anchor is at `base`. There is no note for a site that cannot be
/// described.
pub fn emit_note(layout: &Layout, base: u64, site: &Site) -> (bytes: Option<Vec<u8>>)
    ensures
        bytes is Some <==> representable(*layout, base, site@),
        bytes matches Some(b) ==> b@ == note(*layout, base, site@),
{
    let arguments = match check_site(layout, base, site) {
        Some(text) => text,
        None => {
            return None;
        },
    };
    proof {
        lemma_description_len(*layout, base, site@);
    }
    let total: usize = 3 * layout.width.bytes() + site.provider.len() + site.name.len()
        + arguments.len() + 3;
    let mut out: Vec<u8> = Vec::new();
    write_header(&mut out, layout.order, total as u32);
    write_description(&mut out, layout, base, site, &arguments);
    write_zeros(&mut out, (4 - total % 4) % 4);
    Some(out)
}

/// The sites of a binary as contracts see them.
pub open spec fn views(sites: Seq<Site>) -> Seq<SiteView> {
    Seq::new(sites.len(), |i: int| sites[i]@)
}

/// The note section of a binary: the notes of its sites, one after another.
pub open spec fn section(layout: Layout, base: u64, sites: Seq<SiteView>) -> Seq<u8>
    decreases sites.len(),
{
    if sites.len() == 0 {
        Seq::empty()
    } else {
        note(layout, base, sites[0]) + section(layout, base, sites.drop_first())
    }
}

/// A length brought up to the next multiple of four.
pub open spec fn aligned(len: nat) -> nat {
    len + padding(len)
}

/// The number of probe notes that a tool finds in a section. It reads the
/// three fields at the start of a record, steps over the record's name and
/// body, each brought up to a multiple of four, and goes on until what is
/// left cannot hold the record that it announces. A record counts if its
/// type is the probe tag and its name the probe notes' owner.
pub open spec fn note_count(order: ByteOrder, bytes: Seq<u8>) -> nat
    decreases bytes.len(),
{
    if bytes.len() < 12 {
        0
    } else {
        let name_len = field_value(order, bytes.subrange(0, 4));
        let body_len = field_value(order, bytes.subrange(4, 8));
        let kind = field_value(order, bytes.subrange(8, 12));
        let size = 12 + aligned(name_len) + aligned(body_len);
        if size > bytes.len() {
            0
        } else {
            let here: nat = if kind == NOTE_TYPE && bytes.subrange(12, 12 + name_len as int) == owner() {
                1
            } else {
                0
            };
            here + note_count(order, bytes.subrange(size as int, bytes.len() as int))
        }
    }
}

/// The number of values that `size` bytes tell apart.
pub open spec fn capacity(size: nat) -> nat
    decreases size,
{
    if size == 0 {
        1
    } else {
        256 * capacity((size - 1) as nat)
    }
}

proof fn lemma_little_endian_value(value: nat, size: nat)
    requires
        value < capacity(size),
    ensures
        little_endian_value(little_endian(value, size)) == value,
    decreases size,
{
    if size > 0 {
        let rest = little_endian(value / 256, (size - 1) as nat);
        lemma_little_endian_value(value / 256, (size - 1) as nat);
        let bytes = little_endian(value, size);
        assert(bytes.drop_first() == rest);
        assert(bytes[0] == (value % 256) as u8);
    }
}

/// A field gives back the number that was written into it, if the number
/// is small enough for the field.
pub proof fn lemma_field_value(order: ByteOrder, value: nat, size: nat)
    requires
        value < capacity(size),
    ensures
        field_value(order, field(order, value, size)) == value,
{
    lemma_little_endian_value(value, size);
    let bytes = little_endian(value, size);
    assert(bytes.reverse().reverse() == bytes);
}

/// A section with one more site is the section with one more note at its end.
pub proof fn lemma_section_push(layout: Layout, base: u64, sites: Seq<SiteView>, site: SiteView)
    ensures
        section(layout, base, sites.push(site)) == section(layout, base, sites) + note(
            layout,
            base,
            site,
        ),
    decreases sites.len(),
{
    let longer = sites.push(site);
    assert(longer.len() > 0);
    assert(section(layout, base, longer) == note(layout, base, longer[0]) + section(
        layout,
        base,
        longer.drop_first(),
    ));
    if sites.len() == 0 {
        assert(longer[0] == site);
        assert(longer.drop_first() == sites);
        assert(section(layout, base, sites) == Seq::<u8>::empty());
        assert(note(layout, base, site) + Seq::<u8>::empty() == Seq::<u8>::empty() + note(
            layout,
            base,
            site,
        ));
    } else {
        lemma_section_push(layout, base, sites.drop_first(), site);
        assert(longer.drop_first() == sites.drop_first().push(site));
        assert(longer[0] == sites[0]);
        assert(section(layout, base, sites) == note(layout, base, sites[0]) + section(
            layout,
            base,
            sites.drop_first(),
        ));
        assert(note(layout, base, sites[0]) + (section(layout, base, sites.drop_first()) + note(
            layout,
            base,
            site,
        )) == note(layout, base, sites[0]) + section(layout, base, sites.drop_first()) + note(
            layout,
            base,
            site,
        ));
    }
}

/// A tool that reads `note(..) + rest` finds one probe note and goes on
/// with `rest`.
proof fn lemma_note_count_step(layout: Layout, base: u64, site: SiteView, rest: Seq<u8>)
    requires
        representable(layout, base, site),
    ensures
        note_count(layout.order, note(layout, base, site) + rest) == 1 + note_count(
            layout.order,
            rest,
        ),
{
    let order = layout.order;
    let body = description(layout, base, site);
    let record = note(layout, base, site);
    let bytes = record + rest;
    lemma_description_len(layout, base, site);
    lemma_note_len(layout, base, site);
    lemma_field_len(order, owner().len(), 4);
    lemma_field_len(order, body.len(), 4);
    lemma_field_len(order, NOTE_TYPE as nat, 4);
    assert(capacity(4) == 0x1_0000_0000) by {
        reveal_with_fuel(capacity, 5);
    }
    lemma_field_value(order, owner().len(), 4);
    lemma_field_value(order, body.len(), 4);
    lemma_field_value(order, NOTE_TYPE as nat, 4);
    assert(bytes.subrange(0, 4) == field(order, owner().len(), 4));
    assert(bytes.subrange(4, 8) == field(order, body.len(), 4));
    assert(bytes.subrange(8, 12) == field(order, NOTE_TYPE as nat, 4));
    assert(bytes.subrange(12, 20) == owner());
    assert(aligned(8) == 8);
    assert(12 + aligned(8) + aligned(body.len()) == record.len());
    assert(bytes.subrange(record.len() as int, bytes.len() as int) == rest);
}

/// A binary with K probe sites holds exactly K probe notes for a tool to
/// find.
pub proof fn lemma_note_count(layout: Layout, base: u64, sites: Seq<SiteView>)
    requires
        forall|i: int| 0 <= i < sites.len() ==> representable(layout, base, #[trigger] sites[i]),
    ensures
        note_count(layout.order, section(layout, base, sites)) == sites.len(),
    decreases sites.len(),
{
    if sites.len() > 0 {
        let rest = sites.drop_first();
        assert forall|i: int| 0 <= i < rest.len() implies representable(
            layout,
            base,
            #[trigger] rest[i],
        ) by {
            assert(rest[i] == sites[i + 1]);
        }
        lemma_note_count(layout, base, rest);
        lemma_note_count_step(layout, base, sites[0], section(layout, base, rest));
    }
}

/// Within one binary every segment of every note announces one width, the
/// width of the binary's pointers, and every note holds one segment for
/// each argument of its site.
pub proof fn lemma_uniform_width(layout: Layout, base: u64, sites: Seq<SiteView>)
    requires
        forall|i: int| 0 <= i < sites.len() ==> representable(layout, base, #[trigger] sites[i]),
    ensures
        forall|i: int|
            0 <= i < sites.len() ==> segments(
                descriptor(layout.width, (#[trigger] sites[i]).operands),
            ).len() == sites[i].operands.len(),
        forall|i: int, k: int|
            0 <= i < sites.len() && 0 <= k < sites[i].operands.len() ==> segment_width(
                #[trigger] segments(descriptor(layout.width, sites[i].operands))[k],
            ) == Some(layout.width),
{
    assert forall|i: int| 0 <= i < sites.len() implies segments(
        descriptor(layout.width, (#[trigger] sites[i]).operands),
    ).len() == sites[i].operands.len() by {
        lemma_segment_count(layout.width, sites[i].operands);
    }
    assert forall|i: int, k: int|
        0 <= i < sites.len() && 0 <= k < sites[i].operands.len() implies segment_width(
        #[trigger] segments(descriptor(layout.width, sites[i].operands))[k],
    ) == Some(layout.width) by {
        lemma_segment_widths(layout.width, sites[i].operands);
    }
}

/// Write the note section of a binary of the given layout, whose base
/// anchor is at `base` and whose probe sites are `sites`. There is no
/// section if one of the sites cannot be described.
pub fn emit_section(layout: &Layout, base: u64, sites: &Vec<Site>) -> (bytes: Option<Vec<u8>>)
    ensures
        bytes is Some <==> forall|i: int|
            0 <= i < sites.len() ==> representable(*layout, base, #[trigger] views(sites@)[i]),
        bytes matches Some(b) ==> b@ == section(*layout, base, views(sites@)),
{
    let mut out: Vec<u8> = Vec::new();
    let mut i: usize = 0;
    while i < sites.len()
        invariant
            i <= sites.len(),
            out@ == section(*layout, base, views(sites@).take(i as int)),
            forall|j: int| 0 <= j < i ==> representable(*layout, base, #[trigger] views(sites@)[j]),
        decreases sites.len() - i,
    {
        assert(views(sites@)[i as int] == sites[i as int]@);
        match emit_note(layout, base, &sites[i]) {
            Some(mut record) => {
                proof {
                    let all = views(sites@);
                    lemma_section_push(*layout, base, all.take(i as int), all[i as int]);
                    assert(all.take(i + 1) == all.take(i as int).push(all[i as int]));
                }
                out.append(&mut record);
            },
            None => {
                return None;
            },
        }
        i += 1;
    }
    assert(views(sites@).take(i as int) == views(sites@));
    Some(out)
}

/// Read the four-byte field that starts at `at`.
fn read_field(order: ByteOrder, bytes: &[u8], at: usize) -> (value: u32)
    requires
        at + 4 <= bytes.len(),
    ensures
        value == field_value(order, bytes@.subrange(at as int, at + 4)),
{
    let b0: u32 = bytes[at] as u32;
    let b1: u32 = bytes[at + 1] as u32;
    let b2: u32 = bytes[at + 2] as u32;
    let b3: u32 = bytes[at + 3] as u32;
    proof {
        let s = bytes@.subrange(at as int, at + 4);
        reveal_with_fuel(little_endian_value, 5);
        let r = s.reverse();
        assert(s.drop_first().drop_first().drop_first().drop_first().len() == 0);
        assert(r.drop_first().drop_first().drop_first().drop_first().len() == 0);
        assert(little_endian_value(s) == b0 + 256 * (b1 + 256 * (b2 + 256 * b3)));
        assert(little_endian_value(r) == b3 + 256 * (b2 + 256 * (b1 + 256 * b0)));
    }
    match order {
        ByteOrder::Little => b0 + 256 * (b1 + 256 * (b2 + 256 * b3)),
        ByteOrder::Big => b3 + 256 * (b2 + 256 * (b1 + 256 * b0)),
    }
}

/// Whether the eight bytes that start at `at` are the owner's name.
fn owner_at(bytes: &[u8], at: usize) -> (found: bool)
    requires
        at + 8 <= bytes.len(),
    ensures
        found == (bytes@.subrange(at as int, at + 8) == owner()),
{
    let found = bytes[at] == 0x73 && bytes[at + 1] == 0x74 && bytes[at + 2] == 0x61 && bytes[at
        + 3] == 0x70 && bytes[at + 4] == 0x73 && bytes[at + 5] == 0x64 && bytes[at + 6] == 0x74
        && bytes[at + 7] == 0;
    proof {
        let s = bytes@.subrange(at as int, at + 8);
        if found {
            assert(s == owner());
        } else {
            assert(s[0] == bytes@[at + 0]);
            assert(s[1] == bytes@[at + 1]);
            assert(s[2] == bytes@[at + 2]);
            assert(s[3] == bytes@[at + 3]);
            assert(s[4] == bytes@[at + 4]);
            assert(s[5] == bytes@[at + 5]);
            assert(s[6] == bytes@[at + 6]);
            assert(s[7] == bytes@[at + 7]);
        }
    }
    found
}

/// Count the probe notes in a section, as a tool finds them.
pub fn count_notes(order: ByteOrder, bytes: &[u8]) -> (count: usize)
    ensures
        count == note_count(order, bytes@),
{
    let len = bytes.len();
    let mut count: usize = 0;
    let mut at: usize = 0;
    assert(bytes@.subrange(0, len as int) == bytes@);
    while len - at >= 12
        invariant
            at <= len,
            len == bytes.len(),
            count <= at,
            count + note_count(order, bytes@.subrange(at as int, len as int)) == note_count(
                order,
                bytes@,
            ),
        decreases len - at,
    {
        let ghost rest = bytes@.subrange(at as int, len as int);
        let name_len = read_field(order, bytes, at);
        let body_len = read_field(order, bytes, at + 4);
        let kind = read_field(order, bytes, at + 8);
        proof {
            assert(rest.subrange(0, 4) == bytes@.subrange(at as int, at + 4));
            assert(rest.subrange(4, 8) == bytes@.subrange(at + 4, at + 8));
            assert(rest.subrange(8, 12) == bytes@.subrange(at + 8, at + 12));
        }
        let size: u64 = 12 + (name_len as u64 + (4 - name_len as u64 % 4) % 4) + (body_len as u64
            + (4 - body_len as u64 % 4) % 4);
        if size > (len - at) as u64 {
            proof {
                assert(note_count(order, rest) == 0);
            }
            return count;
        }
        let named = name_len == 8 && owner_at(bytes, at + 12);
        proof {
            assert(rest.subrange(12, 12 + name_len) == bytes@.subrange(
                at + 12,
                at + 12 + name_len,
            ));
            if name_len != 8 {
                assert(rest.subrange(12, 12 + name_len).len() != owner().len());
            }
            assert(rest.subrange(size as int, rest.len() as int) == bytes@.subrange(
                at + size,
                len as int,
            ));
        }
        if kind == NOTE_TYPE && named {
            count += 1;
        }
        at += size as usize;
    }
    proof {
        assert(note_count(order, bytes@.subrange(at as int, len as int)) == 0);
    }
    count
}

} // verus!
