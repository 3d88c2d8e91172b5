//! What a remote repository sends: the lines that advertise its refs, and
//! a pack, whose entries are read into objects.

use crate::bytes::{find_byte, first_index, lemma_first_index};
use crate::commands::clone::{spec_pack_header, RawObject, RawObjectView};
use crate::error::GitError;
use crate::object::ObjectKind;
use crate::zlib::{inflate_prefix, zlib_inflated_prefix};
use vstd::prelude::*;
use vstd::slice::{slice_subrange, slice_to_vec};

verus! {

/// Whether `b` is a hexadecimal digit of either case.
pub open spec fn is_hex_byte(b: u8) -> bool {
    48 <= b <= 57 || 97 <= b <= 102 || 65 <= b <= 70
}

/// `line` without the hexadecimal digits and spaces that it begins with.
pub open spec fn trim_start(line: Seq<u8>) -> Seq<u8>
    decreases line.len(),
{
    if line.len() > 0 && (is_hex_byte(line[0]) || line[0] == 32u8) {
        trim_start(line.drop_first())
    } else {
        line
    }
}

/// The first line of `text`: what stands before the first line feed,
/// without the carriage return that may precede it; all of `text` where it
/// holds no line feed.
pub open spec fn first_line(text: Seq<u8>) -> Seq<u8> {
    let end = first_index(text, 10u8);
    if 0 < end < text.len() && text[end - 1] == 13u8 {
        text.take(end - 1)
    } else {
        text.take(end)
    }
}

/// What follows the first line of `text` and its line feed.
pub open spec fn after_first_line(text: Seq<u8>) -> Seq<u8> {
    let end = first_index(text, 10u8);
    if end < text.len() {
        text.skip(end + 1)
    } else {
        Seq::empty()
    }
}

/// The ref that a line advertises, as what follows the first space and what
/// stands before it, once the hexadecimal digits and spaces that the line
/// begins with are taken off. A line of which nothing is left, one that then
/// begins with `#`, and one without a space advertise none.
pub open spec fn ref_of_line(line: Seq<u8>) -> Option<(Seq<u8>, Seq<u8>)> {
    let rest = trim_start(line);
    let space = first_index(rest, 32u8);
    if rest.len() == 0 || rest[0] == 35u8 || space >= rest.len() {
        None
    } else {
        Some((rest.skip(space + 1), rest.take(space)))
    }
}

/// The refs that the lines of `text` advertise, in the order of the lines,
/// the first `passed_over` lines being left out.
pub open spec fn refs_from(text: Seq<u8>, passed_over: nat) -> Seq<(Seq<u8>, Seq<u8>)>
    decreases text.len(),
    via refs_from_decreases
{
    if text.len() == 0 {
        Seq::empty()
    } else if passed_over > 0 {
        refs_from(after_first_line(text), (passed_over - 1) as nat)
    } else {
        match ref_of_line(first_line(text)) {
            Some(found) => seq![found] + refs_from(after_first_line(text), 0),
            None => refs_from(after_first_line(text), 0),
        }
    }
}

#[via_fn]
proof fn refs_from_decreases(text: Seq<u8>, passed_over: nat) {
    lemma_first_index(text, 10u8);
}

/// The refs that a response advertises: those of its lines after the first
/// two.
pub open spec fn spec_ref_lines(response: Seq<u8>) -> Seq<(Seq<u8>, Seq<u8>)> {
    refs_from(response, 2)
}

fn trimmed_from(line: &[u8]) -> (at: usize)
    ensures
        at <= line.len(),
        line@.skip(at as int) == trim_start(line@),
{
    let mut at: usize = 0;
    assert(line@.skip(0) =~= line@);
    while at < line.len() && ((48u8 <= line[at] && line[at] <= 57u8) || (97u8 <= line[at]
        && line[at] <= 102u8) || (65u8 <= line[at] && line[at] <= 70u8) || line[at] == 32u8)
        invariant
            at <= line.len(),
            trim_start(line@) == trim_start(line@.skip(at as int)),
        decreases line.len() - at,
    {
        assert(line@.skip(at as int).drop_first() =~= line@.skip(at + 1));
        at += 1;
    }
    at
}

fn line_ref(line: &[u8]) -> (res: Option<(Vec<u8>, Vec<u8>)>)
    ensures
        res.deep_view() == ref_of_line(line@),
{
    let from = trimmed_from(line);
    let rest = slice_subrange(line, from, line.len());
    if rest.len() == 0 || rest[0] == 35u8 {
        return None;
    }
    assert(rest@.skip(0) =~= rest@);
    let space = find_byte(rest, 0, 32u8);
    if space >= rest.len() {
        return None;
    }
    let name = slice_to_vec(slice_subrange(rest, space + 1, rest.len()));
    let target = slice_to_vec(slice_subrange(rest, 0, space));
    assert(name.deep_view() =~= rest@.skip(space + 1));
    assert(target.deep_view() =~= rest@.take(space as int));
    Some((name, target))
}

/// Reads the refs out of the lines of a response. The first two lines are
/// passed over. Of each line after them the hexadecimal digits and spaces
/// that it begins with are taken off; what is left, unless it is empty,
/// begins with `#` or holds no space, advertises a ref: its name follows the
/// first space, and what it points at stands before that space.
pub fn parse_ref_lines(response: &[u8]) -> (refs: Vec<(Vec<u8>, Vec<u8>)>)
    ensures
        refs.deep_view() == spec_ref_lines(response@),
{
    let mut refs: Vec<(Vec<u8>, Vec<u8>)> = Vec::new();
    let mut at: usize = 0;
    let mut passed_over: usize = 2;
    assert(response@.skip(0) =~= response@);
    assert(refs.deep_view() + spec_ref_lines(response@) =~= spec_ref_lines(response@));
    while at < response.len()
        invariant
            at <= response.len(),
            passed_over <= 2,
            spec_ref_lines(response@) == refs.deep_view() + refs_from(
                response@.skip(at as int),
                passed_over as nat,
            ),
        decreases response.len() - at,
    {
        let ghost here = response@.skip(at as int);
        let ghost before = refs.deep_view();
        let feed = find_byte(response, at, 10u8);
        let end = if at < feed && feed < response.len() && response[feed - 1] == 13u8 {
            feed - 1
        } else {
            feed
        };
        let next = if feed < response.len() {
            feed + 1
        } else {
            feed
        };
        let line = slice_subrange(response, at, end);
        proof {
            assert(line@ =~= first_line(here));
            assert(after_first_line(here) =~= response@.skip(next as int));
        }
        if passed_over > 0 {
            passed_over -= 1;
        } else {
            match line_ref(line) {
                Some(found) => {
                    proof {
                        let later = refs_from(response@.skip(next as int), 0);
                        assert(before + (seq![found.deep_view()] + later) =~= before.push(
                            found.deep_view(),
                        ) + later);
                    }
                    refs.push(found);
                    assert(refs.deep_view() =~= before.push(found.deep_view()));
                },
                None => {},
            }
        }
        at = next;
    }
    assert(refs.deep_view() + Seq::<(Seq<u8>, Seq<u8>)>::empty() =~= refs.deep_view());
    refs
}

/// The kind that a pack writes as `code`: 1 is a commit, 2 a tree, 3 a blob.
pub open spec fn kind_of_code(code: int) -> Option<ObjectKind> {
    if code == 1 {
        Some(ObjectKind::Commit)
    } else if code == 2 {
        Some(ObjectKind::Tree)
    } else if code == 3 {
        Some(ObjectKind::Blob)
    } else {
        None
    }
}

/// The size of an entry once the bytes from `at` on are added to `size`,
/// and where the header ends. Each byte adds its low seven bits, times
/// `scale`; a byte below 128 is the last one. `None` where the bytes end
/// before the header does.
pub open spec fn entry_size_from(bytes: Seq<u8>, at: int, scale: nat, size: nat) -> Option<
    (nat, int),
>
    decreases bytes.len() - at,
{
    if at < 0 || at >= bytes.len() {
        None
    } else {
        let grown = size + (bytes[at] % 128) * scale;
        if bytes[at] < 128 {
            Some((grown as nat, at + 1))
        } else {
            entry_size_from(bytes, at + 1, scale * 128, grown as nat)
        }
    }
}

/// The header that an entry of a pack begins with: the kind of the object,
/// the size of its payload, and the number of bytes that the header takes.
/// The first byte holds the kind in its bits 4 to 6 and the low four bits of
/// the size; while a byte is 128 or more, another byte follows with seven
/// more bits of the size. A header that the bytes end in, or a size that
/// does not fit in 64 bits, is `Malformed`; after that, a kind other than
/// commit, tree and blob is `Unsupported`.
pub open spec fn spec_pack_entry_header(bytes: Seq<u8>) -> Result<(ObjectKind, nat, int), GitError> {
    if bytes.len() == 0 {
        Err(GitError::Malformed)
    } else {
        let sized = if bytes[0] < 128 {
            Some(((bytes[0] % 16) as nat, 1int))
        } else {
            entry_size_from(bytes, 1, 16, (bytes[0] % 16) as nat)
        };
        match sized {
            Some((size, used)) => if size > u64::MAX {
                Err(GitError::Malformed)
            } else {
                match kind_of_code(((bytes[0] / 16) % 8) as int) {
                    Some(kind) => Ok((kind, size, used)),
                    None => Err(GitError::Unsupported),
                }
            },
            None => Err(GitError::Malformed),
        }
    }
}

/// Bytes only add to the size of an entry, and the header ends within them.
pub proof fn lemma_entry_size_grows(bytes: Seq<u8>, at: int, scale: nat, size: nat)
    ensures
        entry_size_from(bytes, at, scale, size) matches Some((grown, used)) ==> grown >= size
            && at < used <= bytes.len(),
    decreases bytes.len() - at,
{
    if 0 <= at < bytes.len() && bytes[at] >= 128 {
        let grown = size + (bytes[at] % 128) * scale;
        assert((bytes[at] % 128) * scale >= 0) by (nonlinear_arith);
        lemma_entry_size_grows(bytes, at + 1, scale * 128, grown as nat);
    } else if 0 <= at < bytes.len() {
        assert((bytes[at] % 128) * scale >= 0) by (nonlinear_arith);
    }
}

/// Reads the header that an entry of a pack begins with.
pub fn pack_entry_header(bytes: &[u8]) -> (res: Result<(ObjectKind, u64, usize), GitError>)
    ensures
        match spec_pack_entry_header(bytes@) {
            Ok((kind, size, used)) => res matches Ok((k, s, u)) && k == kind && s == size && u
                == used,
            Err(error) => res matches Err(e) && e == error,
        },
        res matches Ok((_, _, used)) ==> 1 <= used <= bytes@.len(),
{
    if bytes.len() == 0 {
        return Err(GitError::Malformed);
    }
    let first = bytes[0];
    let mut size: u64 = (first % 16) as u64;
    let mut at: usize = 1;
    let mut more = first >= 128;
    // the factor of the next byte, as long as it fits; after that only
    // that it is too large for any byte but a zero
    let mut scale: u64 = 16;
    let mut fits = true;
    let ghost mut factor: nat = 16;
    let ghost sized = if first < 128 {
        Some(((first % 16) as nat, 1int))
    } else {
        entry_size_from(bytes@, 1, 16, (first % 16) as nat)
    };
    while more
        invariant
            1 <= at <= bytes.len(),
            first == bytes@[0],
            fits ==> factor == scale,
            !fits ==> factor > u64::MAX,
            more ==> sized == entry_size_from(bytes@, at as int, factor, size as nat),
            !more ==> sized == Some((size as nat, at as int)),
            sized == if first < 128 {
                Some(((first % 16) as nat, 1int))
            } else {
                entry_size_from(bytes@, 1, 16, (first % 16) as nat)
            },
        decreases bytes.len() - at,
    {
        if at >= bytes.len() {
            return Err(GitError::Malformed);
        }
        let byte = bytes[at];
        let group: u64 = (byte % 128) as u64;
        let ghost grown: nat = (size + group * factor) as nat;
        proof {
            lemma_entry_size_grows(bytes@, at + 1, factor * 128, grown);
        }
        if group != 0 {
            if !fits {
                proof {
                    assert(group * factor > u64::MAX) by (nonlinear_arith)
                        requires
                            group >= 1,
                            factor > u64::MAX,
                    ;
                }
                return Err(GitError::Malformed);
            }
            assert(group * scale <= 127 * 0xffff_ffff_ffff_ffff) by (nonlinear_arith)
                requires
                    group <= 127,
                    scale <= 0xffff_ffff_ffff_ffff,
            ;
            let wide: u128 = (size as u128) + (group as u128) * (scale as u128);
            if wide > u64::MAX as u128 {
                return Err(GitError::Malformed);
            }
            size = wide as u64;
        } else {
            assert(group * factor == 0) by (nonlinear_arith)
                requires
                    group == 0,
            ;
        }
        assert(size == grown);
        more = byte >= 128;
        at += 1;
        if fits && scale <= u64::MAX / 128 {
            scale = scale * 128;
            proof {
                factor = factor * 128;
            }
        } else {
            fits = false;
            proof {
                assert(factor * 128 > u64::MAX) by (nonlinear_arith)
                    requires
                        factor > u64::MAX / 128,
                ;
                factor = factor * 128;
            }
        }
    }
    let kind = match (first / 16) % 8 {
        1 => ObjectKind::Commit,
        2 => ObjectKind::Tree,
        3 => ObjectKind::Blob,
        _ => {
            return Err(GitError::Unsupported);
        },
    };
    Ok((kind, size, at))
}

/// Makes the object of an entry out of its header and what was inflated
/// for it. A payload whose length is not the size that the header gave is
/// `Malformed`.
pub fn pack_entry(kind: ObjectKind, size: u64, payload: Vec<u8>) -> (res: Result<
    RawObject,
    GitError,
>)
    ensures
        if payload@.len() == size {
            res matches Ok(object) && object@ == (RawObjectView { kind, payload: payload@ })
        } else {
            res matches Err(e) && e == GitError::Malformed
        },
{
    if payload.len() as u64 == size {
        Ok(RawObject { kind, payload })
    } else {
        Err(GitError::Malformed)
    }
}

/// The object that `bytes` begin with as an entry of a pack, and the number
/// of bytes that the entry takes: its header, then the zlib stream of its
/// payload. What its header fails with comes first; a stream that does not
/// inflate is `Corrupt`; a payload whose length is not the size that the
/// header gave is `Malformed`.
pub open spec fn spec_entry(bytes: Seq<u8>) -> Result<(RawObjectView, int), GitError> {
    match spec_pack_entry_header(bytes) {
        Ok((kind, size, used)) => match zlib_inflated_prefix(bytes.skip(used)) {
            Some((payload, read)) => if payload.len() == size {
                Ok((RawObjectView { kind, payload }, used + read))
            } else {
                Err(GitError::Malformed)
            },
            None => Err(GitError::Corrupt),
        },
        Err(error) => Err(error),
    }
}

/// The objects of the `count` entries that `bytes` begin with, in their
/// order, or what the first entry that fails fails with.
pub open spec fn spec_entries(bytes: Seq<u8>, count: nat) -> Result<Seq<RawObjectView>, GitError>
    decreases count,
{
    if count == 0 {
        Ok(Seq::empty())
    } else {
        match spec_entry(bytes) {
            Ok((object, used)) => after(seq![object], spec_entries(bytes.skip(used), (count - 1) as nat)),
            Err(error) => Err(error),
        }
    }
}

/// `earlier` followed by the objects of `later`, or what `later` failed
/// with.
pub open spec fn after(earlier: Seq<RawObjectView>, later: Result<Seq<RawObjectView>, GitError>)
    -> Result<Seq<RawObjectView>, GitError> {
    match later {
        Ok(objects) => Ok(earlier + objects),
        Err(error) => Err(error),
    }
}

/// The objects of a pack: those of as many entries as its header
/// announces, which follow the header of twelve bytes. What follows the
/// last entry is not looked at. A header that is no pack header is
/// `Malformed`.
pub open spec fn spec_unpack(pack: Seq<u8>) -> Result<Seq<RawObjectView>, GitError> {
    match spec_pack_header(pack) {
        Some(count) => spec_entries(pack.skip(12), count as nat),
        None => Err(GitError::Malformed),
    }
}

/// Reads the objects out of a pack whose entries are whole objects.
pub fn unpack(pack: &[u8]) -> (res: Result<Vec<RawObject>, GitError>)
    ensures
        match spec_unpack(pack@) {
            Ok(objects) => res matches Ok(out) && out.deep_view() == objects,
            Err(error) => res matches Err(e) && e == error,
        },
{
    let count = match crate::commands::clone::Clone::pack_header(pack) {
        Ok(count) => count,
        Err(error) => {
            return Err(error);
        },
    };
    let mut objects: Vec<RawObject> = Vec::new();
    let mut at: usize = 12;
    let mut left: u32 = count;
    assert(after(objects.deep_view(), spec_entries(pack@.skip(12), count as nat)) == spec_unpack(
        pack@,
    )) by {
        let later = spec_entries(pack@.skip(12), count as nat);
        if later is Ok {
            assert(objects.deep_view() + later->Ok_0 =~= later->Ok_0);
        }
    }
    while left > 0
        invariant
            12 <= at <= pack.len(),
            spec_unpack(pack@) == after(
                objects.deep_view(),
                spec_entries(pack@.skip(at as int), left as nat),
            ),
        decreases left,
    {
        let ghost before = objects.deep_view();
        let rest = slice_subrange(pack, at, pack.len());
        assert(rest@ =~= pack@.skip(at as int));
        let (kind, size, used) = match pack_entry_header(rest) {
            Ok(header) => header,
            Err(error) => {
                return Err(error);
            },
        };
        let (payload, read) = match inflate_prefix(slice_subrange(rest, used, rest.len())) {
            Some(inflated) => inflated,
            None => {
                return Err(GitError::Corrupt);
            },
        };
        let object = match pack_entry(kind, size, payload) {
            Ok(object) => object,
            Err(error) => {
                return Err(error);
            },
        };
        proof {
            assert(rest@.skip(used + read) =~= pack@.skip(at + used + read));
            let later = spec_entries(pack@.skip(at + used + read), (left - 1) as nat);
            if later is Ok {
                assert(before + (seq![object@] + later->Ok_0) =~= before.push(object@)
                    + later->Ok_0);
            }
        }
        objects.push(object);
        assert(objects.deep_view() =~= before.push(object@));
        at = at + used + read;
        left -= 1;
    }
    assert(objects.deep_view() + Seq::<RawObjectView>::empty() =~= objects.deep_view());
    Ok(objects)
}

} // verus!
