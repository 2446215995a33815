use crate::error::{Error, ErrorView};
use crate::wire::{read_u16, u16_at};
use std::collections::HashSet;
use vstd::prelude::*;
use vstd::slice::slice_subrange;
use vstd::string::StringExecFns;
use vstd::utf8::{decode_utf8, valid_utf8};

verus! {

broadcast use vstd::std_specs::hash::group_hash_axioms;

/// The text that `bytes` hold, as `std::str::from_utf8` reads it: `Some`
/// exactly when the bytes are well-formed UTF-8, and then the characters they
/// encode.
#[verifier::external_body]
fn utf8_text(bytes: &[u8]) -> (text: Option<&str>)
    ensures
        text is Some <==> valid_utf8(bytes@),
        text matches Some(s) ==> s@ == decode_utf8(bytes@),
{
    std::str::from_utf8(bytes).ok()
}

/// A length byte with both top bits set starts a two-byte compression pointer.
pub open spec fn is_pointer(length: u8) -> bool {
    length >= 0xC0
}

/// Where the compression pointer at `pos` points: the low 14 bits of its two
/// bytes, read big-endian.
pub open spec fn pointer_target(buf: Seq<u8>, pos: int) -> int {
    u16_at(buf, pos) as int % 0x4000
}

/// The position of the length byte that follows the label starting at `pos`.
pub open spec fn label_end(buf: Seq<u8>, pos: int) -> int {
    pos + 1 + buf[pos] as int
}

/// The bytes of the label whose length byte is at `pos`.
pub open spec fn label_bytes(buf: Seq<u8>, pos: int) -> Seq<u8> {
    buf.subrange(pos + 1, label_end(buf, pos))
}

/// What the label at `pos` adds to a name: its characters, and a dot unless
/// the name ends right after it.
pub open spec fn label_text(buf: Seq<u8>, pos: int) -> Seq<char> {
    if buf[label_end(buf, pos)] != 0 {
        decode_utf8(label_bytes(buf, pos)) + seq!['.']
    } else {
        decode_utf8(label_bytes(buf, pos))
    }
}

/// `rest` with `prefix` put in front of the name, where there is one.
pub open spec fn prepend(prefix: Seq<char>, rest: Result<Seq<char>, ErrorView>) -> Result<
    Seq<char>,
    ErrorView,
> {
    match rest {
        Ok(tail) => Ok(prefix + tail),
        Err(fault) => Err(fault),
    }
}

/// The offsets below `len` that no pointer has led to yet.
pub open spec fn unvisited(len: nat, seen: Set<int>) -> Set<int> {
    Set::new(|i: int| 0 <= i < len && !seen.contains(i))
}

/// The name that starts at `pos`, given the set `seen` of offsets at which
/// decoding has started or to which a pointer has led so far.
///
/// A zero byte ends the name. A pointer continues the name at its target,
/// unless the target was seen before. Any other byte is the length of a label.
pub open spec fn name_at(buf: Seq<u8>, pos: int, seen: Set<int>) -> Result<Seq<char>, ErrorView>
    decreases unvisited(buf.len(), seen).len(), buf.len() - pos,
    via name_at_decreases
{
    if pos < 0 || pos >= buf.len() {
        Err(ErrorView::ResolverError("QNAME is out of bound"@))
    } else if buf[pos] == 0 {
        Ok(Seq::empty())
    } else if is_pointer(buf[pos]) {
        let target = pointer_target(buf, pos);
        if pos + 1 >= buf.len() {
            Err(ErrorView::ResolverError("QNAME is malformed"@))
        } else if target >= buf.len() {
            Err(ErrorView::ResolverError("offset is out of bounds"@))
        } else if seen.contains(target) {
            Err(ErrorView::ResolverError("found recursive pointer"@))
        } else {
            name_at(buf, target, seen.insert(target))
        }
    } else if label_end(buf, pos) >= buf.len() {
        Err(ErrorView::ResolverError("QNAME is out of bound"@))
    } else if !valid_utf8(label_bytes(buf, pos)) {
        Err(ErrorView::ResolverError("QNAME contains invalid characters"@))
    } else {
        prepend(label_text(buf, pos), name_at(buf, label_end(buf, pos), seen))
    }
}

/// Following a pointer to an offset not seen before leaves fewer offsets
/// unseen, so decoding comes to an end.
#[via_fn]
proof fn name_at_decreases(buf: Seq<u8>, pos: int, seen: Set<int>) {
    if 0 <= pos < buf.len() && buf[pos] != 0 && is_pointer(buf[pos]) {
        let target = pointer_target(buf, pos);
        if pos + 1 < buf.len() && target < buf.len() && !seen.contains(target) {
            lemma_visit_shrinks(buf.len(), seen, target);
        }
    }
}

/// Visiting one more offset below `len` leaves fewer offsets unvisited.
pub proof fn lemma_visit_shrinks(len: nat, seen: Set<int>, target: int)
    requires
        0 <= target < len,
        !seen.contains(target),
    ensures
        unvisited(len, seen).finite(),
        unvisited(len, seen.insert(target)).len() < unvisited(len, seen).len(),
{
    let below = vstd::set_lib::set_int_range(0, len as int);
    vstd::set_lib::lemma_int_range(0, len as int);
    vstd::set_lib::lemma_len_subset(unvisited(len, seen), below);
    assert(unvisited(len, seen.insert(target)) =~= unvisited(len, seen).remove(target));
    vstd::set::axiom_set_remove_len(unvisited(len, seen), target);
}

/// The name that a message `buf` holds at `start`.
pub open spec fn domain_name(buf: Seq<u8>, start: int) -> Result<Seq<char>, ErrorView> {
    name_at(buf, start, set![start])
}

/// Where the bytes of the name at `pos` stop, for a name that decodes:
/// behind the zero byte that ends it, or behind the first pointer.
pub open spec fn name_end(buf: Seq<u8>, pos: int) -> int
    decreases buf.len() - pos,
{
    if pos < 0 || pos >= buf.len() {
        pos
    } else if buf[pos] == 0 {
        pos + 1
    } else if is_pointer(buf[pos]) {
        pos + 2
    } else if label_end(buf, pos) >= buf.len() {
        pos
    } else {
        name_end(buf, label_end(buf, pos))
    }
}

/// The bytes of a name that decodes lie inside the message, and there is at
/// least one of them.
pub proof fn lemma_name_end_in_bounds(buf: Seq<u8>, pos: int, seen: Set<int>)
    requires
        name_at(buf, pos, seen) is Ok,
    ensures
        0 <= pos < name_end(buf, pos) <= buf.len(),
    decreases buf.len() - pos,
{
    if 0 <= pos < buf.len() && buf[pos] != 0 && !is_pointer(buf[pos]) {
        lemma_name_end_in_bounds(buf, label_end(buf, pos), seen);
    }
}

/// A name that decodes still decodes, and to the same text, when the place
/// of a pointer to an offset already seen counts as seen too: decoding never
/// came by that pointer.
pub proof fn lemma_pointer_off_the_path(buf: Seq<u8>, pos: int, seen: Set<int>, pointer: int)
    requires
        name_at(buf, pos, seen) is Ok,
        0 <= pointer,
        pointer + 1 < buf.len(),
        is_pointer(buf[pointer]),
        seen.contains(pointer_target(buf, pointer)),
    ensures
        name_at(buf, pos, seen.insert(pointer)) == name_at(buf, pos, seen),
    decreases unvisited(buf.len(), seen).len(), buf.len() - pos,
{
    if buf[pos] == 0 {
    } else if is_pointer(buf[pos]) {
        let target = pointer_target(buf, pos);
        lemma_visit_shrinks(buf.len(), seen, target);
        if target != pointer {
            lemma_pointer_off_the_path(buf, target, seen.insert(target), pointer);
            assert(seen.insert(pointer).insert(target) =~= seen.insert(target).insert(pointer));
        }
    } else {
        lemma_pointer_off_the_path(buf, label_end(buf, pos), seen, pointer);
    }
}

/// Decoding gives the same name at a pointer as at the place to which the
/// pointer points, and the bytes of the name at the pointer are the two
/// bytes of the pointer.
pub proof fn lemma_pointer_decodes_like_its_target(buf: Seq<u8>, pointer: int)
    requires
        0 <= pointer,
        pointer + 1 < buf.len(),
        is_pointer(buf[pointer]),
        domain_name(buf, pointer_target(buf, pointer)) is Ok,
    ensures
        domain_name(buf, pointer) == domain_name(buf, pointer_target(buf, pointer)),
        name_end(buf, pointer) == pointer + 2,
{
    let target = pointer_target(buf, pointer);
    if target != pointer {
        lemma_pointer_off_the_path(buf, target, set![target], pointer);
        assert(set![pointer].insert(target) =~= set![target].insert(pointer));
    }
}

/// Two pointers that point at each other do not decode: from either of them
/// decoding ends with the complaint about a recursive pointer. So does a
/// pointer that points at itself.
pub proof fn lemma_pointer_pair_is_rejected(buf: Seq<u8>, first: int, second: int)
    requires
        0 <= first,
        first + 1 < buf.len(),
        0 <= second,
        second + 1 < buf.len(),
        is_pointer(buf[first]),
        is_pointer(buf[second]),
        pointer_target(buf, first) == second,
        pointer_target(buf, second) == first,
    ensures
        domain_name(buf, first) == Err::<Seq<char>, ErrorView>(
            ErrorView::ResolverError("found recursive pointer"@),
        ),
        domain_name(buf, second) == Err::<Seq<char>, ErrorView>(
            ErrorView::ResolverError("found recursive pointer"@),
        ),
{
    if first != second {
        lemma_visit_shrinks(buf.len(), set![first], second);
        assert(name_at(buf, first, set![first]) == name_at(
            buf,
            second,
            set![first].insert(second),
        ));
        lemma_visit_shrinks(buf.len(), set![second], first);
        assert(name_at(buf, second, set![second]) == name_at(
            buf,
            first,
            set![second].insert(first),
        ));
    }
}

/// What following a pointer to `target` yields: a fault where the target was
/// seen before, else the name found there.
pub open spec fn after_jump(buf: Seq<u8>, target: int, seen: Set<int>) -> Result<
    Seq<char>,
    ErrorView,
> {
    if seen.contains(target) {
        Err(ErrorView::ResolverError("found recursive pointer"@))
    } else {
        name_at(buf, target, seen.insert(target))
    }
}

/// Decodes the domain name that starts at `start_pos`, following compression
/// pointers, and returns it with the position behind the name's own bytes.
///
/// Labels are joined by dots. Every pointer target is remembered, so a chain
/// of pointers that comes back to an earlier target is an error and never a
/// loop. No read goes past the end of `buf`.
pub fn parse_domain(buf: &[u8], start_pos: usize) -> (r: Result<(String, usize), Error>)
    ensures
        match domain_name(buf@, start_pos as int) {
            Ok(name) => r matches Ok((domain, end)) && domain@ == name && end == name_end(
                buf@,
                start_pos as int,
            ),
            Err(fault) => r matches Err(error) && error@ == fault,
        },
        r matches Ok((_, end)) ==> start_pos < end <= buf.len(),
{
    proof {
        if domain_name(buf@, start_pos as int) is Ok {
            lemma_name_end_in_bounds(buf@, start_pos as int, set![start_pos as int]);
        }
    }
    if start_pos >= buf.len() {
        return Err(Error::resolver("QNAME is out of bound"));
    }
    let mut domain = String::new();
    let mut stack: Vec<usize> = Vec::new();
    stack.push(start_pos);
    let mut set_end = false;
    let mut end: usize = start_pos + 1;
    let mut visited: HashSet<usize> = HashSet::new();
    let ghost mut seen: Set<int> = Set::empty();
    let ghost whole = domain_name(buf@, start_pos as int);

    while stack.len() > 0
        invariant
            start_pos < buf.len(),
            whole == domain_name(buf@, start_pos as int),
            stack.len() <= 1,
            forall|i: int| seen.contains(i) ==> 0 <= i < buf.len(),
            forall|i: usize| visited@.contains(i) <==> seen.contains(i as int),
            stack.len() == 1 ==> stack[0] < buf.len() && whole == prepend(
                domain@,
                after_jump(buf@, stack[0] as int, seen),
            ),
            stack.len() == 0 ==> whole == Ok::<Seq<char>, ErrorView>(domain@),
            set_end || stack.len() == 0 ==> end == name_end(buf@, start_pos as int),
            !set_end && stack.len() == 1 ==> stack[0] == start_pos && end == start_pos + 1,
        decreases unvisited(buf@.len(), seen).len(),
    {
        let mut curr_pos = stack.pop().unwrap();
        if visited.contains(&curr_pos) {
            return Err(Error::resolver("found recursive pointer"));
        }
        visited.insert(curr_pos);
        proof {
            lemma_visit_shrinks(buf@.len(), seen, curr_pos as int);
            seen = seen.insert(curr_pos as int);
        }

        while buf[curr_pos] != 0
            invariant_except_break
                stack.len() == 0,
                whole == prepend(domain@, name_at(buf@, curr_pos as int, seen)),
                !set_end ==> end == curr_pos + 1 && name_end(buf@, start_pos as int) == name_end(
                    buf@,
                    curr_pos as int,
                ),
            invariant
                curr_pos < buf.len(),
                start_pos < buf.len(),
                whole == domain_name(buf@, start_pos as int),
                forall|i: int| seen.contains(i) ==> 0 <= i < buf.len(),
                forall|i: usize| visited@.contains(i) <==> seen.contains(i as int),
                set_end ==> end == name_end(buf@, start_pos as int),
            ensures
                stack.len() <= 1,
                stack.len() == 1 ==> set_end && stack[0] < buf.len() && whole == prepend(
                    domain@,
                    after_jump(buf@, stack[0] as int, seen),
                ),
                stack.len() == 0 ==> end == name_end(buf@, start_pos as int) && whole == Ok::<
                    Seq<char>,
                    ErrorView,
                >(domain@),
            decreases buf.len() - curr_pos,
        {
            let first: u8 = buf[curr_pos];
            let len: usize = first as usize;
            let is_compressed = first & 0xC0 == 0xC0;
            assert((first & 0xC0 == 0xC0) == (first >= 0xC0)) by (bit_vector);

            if is_compressed {
                if curr_pos + 1 >= buf.len() {
                    return Err(Error::resolver("QNAME is malformed"));
                }
                let word: u16 = read_u16(buf, curr_pos);
                assert(word & 0x3FFF == word % 0x4000) by (bit_vector);
                let offset: usize = (word & 0x3FFF) as usize;
                if offset >= buf.len() {
                    return Err(Error::resolver("offset is out of bounds"));
                }
                stack.push(offset);

                if !set_end {
                    end = curr_pos + 2;
                    set_end = true;
                }
                break ;
            } else {
                let ghost at = curr_pos as int;
                let ghost before = domain@;
                curr_pos += 1;

                if len >= buf.len() - curr_pos {
                    return Err(Error::resolver("QNAME is out of bound"));
                }
                let label = match utf8_text(slice_subrange(buf, curr_pos, curr_pos + len)) {
                    Some(label) => label,
                    None => {
                        return Err(Error::resolver("QNAME contains invalid characters"));
                    },
                };
                domain.append(label);

                curr_pos += len;

                if buf[curr_pos] != 0 {
                    proof {
                        reveal_strlit(".");
                    }
                    domain.append(".");
                    assert("."@ =~= seq!['.']);
                }
                assert(domain@ =~= before + label_text(buf@, at));
                assert forall|tail: Seq<char>|
                    before + (label_text(buf@, at) + tail) == domain@ + tail by {
                    assert(before + (label_text(buf@, at) + tail) =~= domain@ + tail);
                }

                if !set_end {
                    end = curr_pos + 1;
                }
            }
        }
    }

    Ok((domain, end))
}

/// The byte that separates the labels of a name written as text.
pub const DOT: u8 = 0x2E;

/// The byte of a hyphen.
pub const HYPHEN: u8 = 0x2D;

/// Whether `char::is_alphanumeric` holds of `c`.
pub uninterp spec fn alphanumeric(c: char) -> bool;

/// `char::is_alphanumeric`: whether `c` is alphabetic or numeric in the sense
/// of Unicode. The contract gives the answer a name and claims nothing more.
#[verifier::external_body]
fn is_alphanumeric(c: char) -> (r: bool)
    ensures
        r == alphanumeric(c),
{
    c.is_alphanumeric()
}

/// A host name is written with alphanumeric characters, hyphens and dots.
pub open spec fn hostname_char(c: char) -> bool {
    alphanumeric(c) || c == '-' || c == '.'
}

/// Whether `c` may stand in a host name, given whether it is alphanumeric.
pub fn allowed_in_hostname(c: char, is_alphanumeric: bool) -> (allowed: bool)
    ensures
        allowed == (is_alphanumeric || c == '-' || c == '.'),
        is_alphanumeric == alphanumeric(c) ==> allowed == hostname_char(c),
{
    is_alphanumeric || c == '-' || c == '.'
}

/// `name` without the dots at its end.
pub open spec fn without_trailing_dots(name: Seq<u8>) -> Seq<u8>
    decreases name.len(),
{
    if name.len() > 0 && name.last() == DOT {
        without_trailing_dots(name.drop_last())
    } else {
        name
    }
}

/// The index of the first dot in `name`, or its length where it has none.
pub open spec fn first_dot(name: Seq<u8>) -> int
    decreases name.len(),
{
    if name.len() == 0 || name[0] == DOT {
        0
    } else {
        1 + first_dot(name.drop_first())
    }
}

/// The labels of `name`: the pieces between its dots, in order. A name
/// without a dot is one label, and so is the empty name.
pub open spec fn labels(name: Seq<u8>) -> Seq<Seq<u8>>
    decreases name.len(),
{
    let cut = first_dot(name);
    if 0 <= cut < name.len() {
        seq![name.take(cut)] + labels(name.skip(cut + 1))
    } else {
        seq![name]
    }
}

/// A label holds 1 to 63 bytes and neither starts nor ends with a hyphen.
pub open spec fn label_ok(label: Seq<u8>) -> bool {
    &&& 1 <= label.len() <= 63
    &&& label.first() != HYPHEN
    &&& label.last() != HYPHEN
}

/// Every label of `name` is well formed.
pub open spec fn labels_ok(name: Seq<u8>) -> bool {
    forall|i: int| 0 <= i < labels(name).len() ==> label_ok(#[trigger] labels(name)[i])
}

/// A valid host name, once the dots at its end are dropped, holds 1 to 255
/// bytes in well-formed labels, and all its characters are alphanumeric,
/// hyphens or dots.
pub open spec fn valid_hostname(domain: Seq<char>) -> bool {
    let name = without_trailing_dots(vstd::utf8::encode_utf8(domain));
    &&& 1 <= name.len() <= 255
    &&& labels_ok(name)
    &&& forall|i: int| 0 <= i < domain.len() ==> hostname_char(#[trigger] domain[i])
}

/// Where no dot stands before `cut`, and a dot or the end of `name` at `cut`,
/// `cut` is the first dot.
pub proof fn lemma_first_dot(name: Seq<u8>, cut: int)
    requires
        0 <= cut <= name.len(),
        forall|k: int| 0 <= k < cut ==> name[k] != DOT,
        cut < name.len() ==> name[cut] == DOT,
    ensures
        first_dot(name) == cut,
    decreases cut,
{
    if cut > 0 {
        lemma_first_dot(name.drop_first(), cut - 1);
    }
}

/// Scans the label that starts at `start`, and returns where it stops: at
/// the next dot, or at the end of `name`.
pub(crate) fn label_stop(name: &[u8], start: usize) -> (stop: usize)
    requires
        start <= name.len(),
    ensures
        start <= stop <= name.len(),
        stop < name.len() ==> name@[stop as int] == DOT,
        stop - start == first_dot(name@.skip(start as int)),
        labels(name@.skip(start as int)) == if stop < name.len() {
            seq![name@.subrange(start as int, stop as int)] + labels(name@.skip(stop + 1))
        } else {
            seq![name@.subrange(start as int, stop as int)]
        },
{
    let mut stop = start;
    while stop < name.len() && name[stop] != DOT
        invariant
            start <= stop <= name.len(),
            forall|k: int| start <= k < stop ==> name@[k] != DOT,
        decreases name.len() - stop,
    {
        stop += 1;
    }
    proof {
        let rest = name@.skip(start as int);
        let label = name@.subrange(start as int, stop as int);
        lemma_first_dot(rest, stop - start);
        assert(rest.take(stop - start) =~= label);
        assert(stop == name.len() ==> rest =~= label);
        assert(stop < name.len() ==> rest.skip(stop - start + 1) =~= name@.skip(stop + 1));
    }
    stop
}

/// Whether every label of `name` is well formed.
pub fn well_formed_labels(name: &[u8]) -> (ok: bool)
    ensures
        ok == labels_ok(name@),
{
    let mut start: usize = 0;
    let ghost mut done: Seq<Seq<u8>> = Seq::empty();
    proof {
        assert(name@.skip(0) =~= name@);
        assert(done + labels(name@) =~= labels(name@));
    }
    loop
        invariant
            start <= name.len(),
            labels(name@) == done + labels(name@.skip(start as int)),
            forall|i: int| 0 <= i < done.len() ==> label_ok(#[trigger] done[i]),
        decreases name.len() - start,
    {
        let stop = label_stop(name, start);
        let ghost label = name@.subrange(start as int, stop as int);
        assert(labels(name@)[done.len() as int] == label);
        let len = stop - start;
        if len == 0 || len > 63 || name[start] == HYPHEN || name[stop - 1] == HYPHEN {
            return false;
        }
        if stop == name.len() {
            assert(labels(name@) =~= done.push(label));
            return true;
        }
        proof {
            assert(labels(name@) =~= done.push(label) + labels(name@.skip(stop + 1)));
            done = done.push(label);
        }
        start = stop + 1;
    }
}

/// The length of `name` without the dots at its end.
pub fn trimmed_len(name: &[u8]) -> (len: usize)
    ensures
        len <= name.len(),
        name@.take(len as int) == without_trailing_dots(name@),
{
    let mut len = name.len();
    assert(name@.take(len as int) =~= name@);
    while len > 0 && name[len - 1] == DOT
        invariant
            len <= name.len(),
            without_trailing_dots(name@) == without_trailing_dots(name@.take(len as int)),
        decreases len,
    {
        assert(name@.take(len as int).drop_last() =~= name@.take(len - 1));
        len -= 1;
    }
    len
}

/// Validates whether a domain is eligible for a query.
///
/// Dots at the end are allowed and ignored. Lengths count the bytes of the
/// name in UTF-8.
pub fn validate_domain(domain: &str) -> (r: Result<(), Error>)
    ensures
        match r {
            Ok(_) => valid_hostname(domain@),
            Err(error) => !valid_hostname(domain@) && error@ == ErrorView::InvalidHostname,
        },
{
    broadcast use vstd::string::group_string_axioms;

    let bytes = domain.as_bytes();
    let len = trimmed_len(bytes);
    if len == 0 || len > 255 {
        return Err(Error::InvalidHostname);
    }
    if !well_formed_labels(slice_subrange(bytes, 0, len)) {
        return Err(Error::InvalidHostname);
    }
    for c in iter: domain.chars()
        invariant
            iter.seq() == domain@,
            forall|k: int| 0 <= k < iter.index() ==> hostname_char(#[trigger] domain@[k]),
    {
        if !allowed_in_hostname(c, is_alphanumeric(c)) {
            return Err(Error::InvalidHostname);
        }
    }
    Ok(())
}

} // verus!
