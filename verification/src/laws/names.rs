//! Laws of encoded domain names.

use vstd::prelude::*;
use vstd::utf8;

use crate::dns;
use crate::laws::numbers;
use crate::text;

verus! {

/// A name that is decoded lies in the message and takes at least one byte.
pub proof fn law_name_lies_in_message(data: Seq<u8>, offset: int)
    ensures
        dns::name_at(data, offset) matches Some((_, end)) ==> 0 <= offset < end <= data.len(),
{
    dns::lemma_name_end(data, offset, offset, dns::MAX_PTR_DEPTH as nat);
}

proof fn lemma_joined_len(labels: Seq<Seq<char>>)
    ensures
        labels.len() > 0 ==> text::byte_len(text::join(labels, "."@)) + 1 == dns::name_len(
            labels,
        ),
        labels.len() == 0 ==> text::byte_len(text::join(labels, "."@)) == 0,
    decreases labels.len(),
{
    if labels.len() == 1 {
        assert(dns::name_len(labels.drop_first()) == 0);
        assert(text::join(labels, "."@) == labels[0]);
    } else if labels.len() > 1 {
        let front = labels.drop_last();
        lemma_joined_len(front);
        lemma_name_len_back(front, labels.last());
        assert(front.push(labels.last()) =~= labels);
        let head = text::join(front, "."@);
        text::lemma_encode_concat(head + "."@, labels.last());
        text::lemma_encode_concat(head, "."@);
        reveal_strlit(".");
        assert("."@ =~= Seq::<char>::empty().push('.'));
        text::lemma_byte_len_push(Seq::empty(), '.');
        assert(text::byte_len(Seq::empty()) == 0);
        assert(utf8::encode_scalar('.' as u32).len() == 1);
        assert(text::byte_len("."@) == 1);
        assert(text::join(labels, "."@) == head + "."@ + labels.last());
    }
}

proof fn lemma_name_len_back(labels: Seq<Seq<char>>, label: Seq<char>)
    ensures
        dns::name_len(labels.push(label)) == dns::name_len(labels) + text::byte_len(label) + 1,
    decreases labels.len(),
{
    if labels.len() == 0 {
        assert(labels.push(label).drop_first() =~= labels);
    } else {
        assert(labels.push(label).drop_first() =~= labels.drop_first().push(label));
        lemma_name_len_back(labels.drop_first(), label);
    }
}

/// A name that is decoded has at most 254 bytes.
pub proof fn law_name_is_short(data: Seq<u8>, offset: int)
    ensures
        dns::name_at(data, offset) matches Some((name, _)) ==> text::byte_len(name) <= 254,
{
    if let Some((labels, _)) = dns::labels_at(data, offset, offset, dns::MAX_PTR_DEPTH as nat) {
        lemma_joined_len(labels);
    }
}

/// Where the run of labels from `pos` on stops.
pub open spec fn run_end(data: Seq<u8>, pos: int) -> int
    decreases data.len() - pos,
{
    if 0 <= pos < data.len() && 0 < data[pos] < 0x40 && pos + 1 + data[pos] <= data.len() {
        run_end(data, pos + 1 + data[pos])
    } else {
        pos
    }
}

/// Whether the run of labels from `pos` on stops at a pointer.
pub open spec fn stops_at_pointer(data: Seq<u8>, pos: int) -> bool {
    0 <= run_end(data, pos) && run_end(data, pos) + 1 < data.len() && data[run_end(data, pos)]
        >= 0xC0
}

/// Where that pointer leads.
pub open spec fn next_run(data: Seq<u8>, pos: int) -> int {
    (data[run_end(data, pos)] - 0xC0) * 256 + data[run_end(data, pos) + 1]
}

proof fn lemma_run(data: Seq<u8>, start: int, pos: int, hops: nat)
    requires
        stops_at_pointer(data, pos),
        hops == 0 || dns::labels_at(
            data,
            next_run(data, pos),
            next_run(data, pos),
            (hops - 1) as nat,
        ) is None,
    ensures
        dns::labels_at(data, start, pos, hops) is None,
    decreases data.len() - pos,
{
    if 0 <= pos < data.len() && 0 < data[pos] < 0x40 && pos + 1 + data[pos] <= data.len() {
        lemma_run(data, start, pos + 1 + data[pos], hops);
    }
}

proof fn lemma_path(data: Seq<u8>, path: Seq<int>, hops: nat)
    requires
        path.len() == hops + 1,
        forall|i: int| 0 <= i < path.len() ==> #[trigger] stops_at_pointer(data, path[i]),
        forall|i: int|
            0 <= i < path.len() - 1 ==> path[i + 1] == #[trigger] next_run(data, path[i]),
    ensures
        dns::labels_at(data, path[0], path[0], hops) is None,
    decreases hops,
{
    assert(stops_at_pointer(data, path[0]));
    if hops > 0 {
        assert(path[1] == next_run(data, path[0]));
        let rest = path.skip(1);
        assert forall|i: int| 0 <= i < rest.len() implies #[trigger] stops_at_pointer(
            data,
            rest[i],
        ) by {
            assert(stops_at_pointer(data, path[i + 1]));
        }
        assert forall|i: int| 0 <= i < rest.len() - 1 implies rest[i + 1] == #[trigger] next_run(
            data,
            rest[i],
        ) by {
            assert(path[i + 1 + 1] == next_run(data, path[i + 1]));
        }
        lemma_path(data, rest, (hops - 1) as nat);
    }
    lemma_run(data, path[0], path[0], hops);
}

/// A name that takes more than ten pointers is rejected.
pub proof fn law_long_pointer_chain_is_rejected(data: Seq<u8>, path: Seq<int>)
    requires
        path.len() == 11,
        forall|i: int| 0 <= i < path.len() ==> #[trigger] stops_at_pointer(data, path[i]),
        forall|i: int|
            0 <= i < path.len() - 1 ==> path[i + 1] == #[trigger] next_run(data, path[i]),
    ensures
        dns::name_at(data, path[0]) is None,
{
    lemma_path(data, path, dns::MAX_PTR_DEPTH as nat);
}

proof fn lemma_loop(data: Seq<u8>, places: Set<int>, pos: int, hops: nat)
    requires
        forall|p: int| #[trigger]
            places.contains(p) ==> stops_at_pointer(data, p) && places.contains(
                next_run(data, p),
            ),
        places.contains(pos),
    ensures
        dns::labels_at(data, pos, pos, hops) is None,
    decreases hops,
{
    if hops > 0 {
        lemma_loop(data, places, next_run(data, pos), (hops - 1) as nat);
    }
    lemma_run(data, pos, pos, hops);
}

/// A name whose pointers lead round in circles is rejected: so is every name
/// that starts at one of some places from which pointers only lead to these
/// places again.
pub proof fn law_pointer_loop_is_rejected(data: Seq<u8>, places: Set<int>, pos: int)
    requires
        forall|p: int| #[trigger]
            places.contains(p) ==> stops_at_pointer(data, p) && places.contains(
                next_run(data, p),
            ),
        places.contains(pos),
    ensures
        dns::name_at(data, pos) is None,
{
    lemma_loop(data, places, pos, dns::MAX_PTR_DEPTH as nat);
}

proof fn lemma_one_more_hop(data: Seq<u8>, start: int, pos: int, hops: nat)
    requires
        dns::labels_at(data, start, pos, hops) is Some,
    ensures
        dns::labels_at(data, start, pos, hops + 1) == dns::labels_at(data, start, pos, hops),
    decreases hops, data.len() - pos,
{
    if data[pos] == 0 {
    } else if data[pos] < 0x40 {
        lemma_one_more_hop(data, start, pos + 1 + data[pos], hops);
    } else {
        let target = dns::pointer_target(data, pos);
        lemma_one_more_hop(data, target, target, (hops - 1) as nat);
    }
}

/// Leave to follow more pointers never loses or changes the labels of a name.
pub proof fn law_more_hops_keep_the_labels(
    data: Seq<u8>,
    start: int,
    pos: int,
    hops: nat,
    more: nat,
)
    requires
        hops <= more,
        dns::labels_at(data, start, pos, hops) is Some,
    ensures
        dns::labels_at(data, start, pos, more) == dns::labels_at(data, start, pos, hops),
    decreases more,
{
    if hops < more {
        law_more_hops_keep_the_labels(data, start, pos, hops, (more - 1) as nat);
        lemma_one_more_hop(data, start, pos, (more - 1) as nat);
    }
}

/// Pointers followed before a name never give it another result, and fewer of them
/// never lose it; more than are allowed always do.
pub proof fn law_smaller_depth_keeps_the_name(
    data: Seq<u8>,
    offset: int,
    depth: nat,
    smaller: nat,
)
    ensures
        depth > dns::MAX_PTR_DEPTH ==> dns::name_from(data, offset, depth) is None,
        smaller <= depth && dns::name_from(data, offset, depth) is Some ==> dns::name_from(
            data,
            offset,
            smaller,
        ) == dns::name_from(data, offset, depth),
{
    if smaller <= depth && dns::name_from(data, offset, depth) is Some {
        law_more_hops_keep_the_labels(
            data,
            offset,
            offset,
            (dns::MAX_PTR_DEPTH - depth) as nat,
            (dns::MAX_PTR_DEPTH - smaller) as nat,
        );
    }
}

/// A name that starts with a pointer is that of its target, with one more pointer
/// followed before; a pointer beyond the message or to itself is rejected.
pub proof fn law_pointer_is_followed(data: Seq<u8>, offset: int, depth: nat)
    requires
        depth <= dns::MAX_PTR_DEPTH,
        0 <= offset,
        offset + 1 < data.len(),
        data[offset] >= 0xC0,
    ensures
        ({
            let target = (data[offset] - 0xC0) * 256 + data[offset + 1];
            dns::name_from(data, offset, depth) == if target >= data.len() || target == offset {
                None
            } else {
                match dns::name_from(data, target, depth + 1) {
                    Some((name, _)) => Some((name, offset + 2)),
                    None => None,
                }
            }
        }),
{
}

/// A pointer stands for the name it leads to, which may not itself take all the
/// pointers that are allowed.
pub proof fn law_pointer_stands_for_its_target(data: Seq<u8>, pos: int)
    requires
        0 <= pos,
        pos + 1 < data.len(),
        data[pos] >= 0xC0,
        ({
            let target = (data[pos] - 0xC0) * 256 + data[pos + 1];
            target != pos && dns::labels_at(
                data,
                target,
                target,
                (dns::MAX_PTR_DEPTH - 1) as nat,
            ) is Some
        }),
    ensures
        match dns::name_at(data, (data[pos] - 0xC0) * 256 + data[pos + 1]) {
            Some((name, _)) => dns::name_at(data, pos) == Some((name, pos + 2)),
            None => dns::name_at(data, pos) is None,
        },
{
    let target = (data[pos] - 0xC0) * 256 + data[pos + 1];
    lemma_one_more_hop(data, target, target, (dns::MAX_PTR_DEPTH - 1) as nat);
}

/// The encoding of a name without pointers.
pub open spec fn encoded(labels: Seq<Seq<char>>) -> Seq<u8>
    decreases labels.len(),
{
    if labels.len() == 0 {
        seq![0u8]
    } else {
        let bytes = utf8::encode_utf8(labels[0]);
        seq![bytes.len() as u8] + bytes + encoded(labels.drop_first())
    }
}

/// Labels that a name can have: neither empty nor longer than 63 bytes, and in
/// all not longer than a name may be.
pub open spec fn are_labels(labels: Seq<Seq<char>>) -> bool {
    &&& forall|i: int|
        0 <= i < labels.len() ==> 0 < text::byte_len(#[trigger] labels[i]) < 0x40
    &&& dns::name_len(labels) <= dns::MAX_NAME_LEN
}

pub proof fn lemma_encoded_len(labels: Seq<Seq<char>>)
    ensures
        encoded(labels).len() == dns::name_len(labels) + 1,
    decreases labels.len(),
{
    if labels.len() > 0 {
        lemma_encoded_len(labels.drop_first());
    }
}

proof fn lemma_decode_encoded(
    before: Seq<u8>,
    labels: Seq<Seq<char>>,
    after: Seq<u8>,
    start: int,
    hops: nat,
)
    requires
        forall|i: int|
            0 <= i < labels.len() ==> 0 < text::byte_len(#[trigger] labels[i]) < 0x40,
    ensures
        dns::labels_at(before + encoded(labels) + after, start, before.len() as int, hops) == Some(
            (labels, (before.len() + encoded(labels).len()) as int),
        ),
    decreases labels.len(),
{
    let data = before + encoded(labels) + after;
    let pos = before.len() as int;
    if labels.len() == 0 {
        assert(data[pos] == 0);
        assert(labels =~= Seq::empty());
    } else {
        let bytes = utf8::encode_utf8(labels[0]);
        let rest = labels.drop_first();
        let front = before + seq![bytes.len() as u8] + bytes;
        assert(data =~= front + encoded(rest) + after);
        assert(0 < text::byte_len(labels[0]) < 0x40);
        assert(data[pos] == bytes.len());
        assert(data.subrange(pos + 1, pos + 1 + bytes.len()) =~= bytes);
        utf8::encode_utf8_valid_utf8(labels[0]);
        utf8::encode_utf8_decode_utf8(labels[0]);
        assert forall|i: int| 0 <= i < rest.len() implies 0 < text::byte_len(#[trigger] rest[i])
            < 0x40 by {
            assert(rest[i] == labels[i + 1]);
        }
        lemma_decode_encoded(front, rest, after, start, hops);
        assert(seq![labels[0]] + rest =~= labels);
    }
}

/// Decoding gives back what was encoded, wherever in a message it stands.
pub proof fn law_name_round_trip(before: Seq<u8>, labels: Seq<Seq<char>>, after: Seq<u8>)
    requires
        are_labels(labels),
    ensures
        dns::name_at(before + encoded(labels) + after, before.len() as int) == Some(
            (text::join(labels, "."@), (before.len() + dns::name_len(labels) + 1) as int),
        ),
{
    lemma_decode_encoded(
        before,
        labels,
        after,
        before.len() as int,
        dns::MAX_PTR_DEPTH as nat,
    );
    lemma_encoded_len(labels);
}

/// The encoding of some labels in a row: of each its length in one byte, and its
/// bytes.
pub open spec fn run_bytes(labels: Seq<Seq<char>>) -> Seq<u8>
    decreases labels.len(),
{
    if labels.len() == 0 {
        Seq::empty()
    } else {
        let bytes = utf8::encode_utf8(labels[0]);
        seq![bytes.len() as u8] + bytes + run_bytes(labels.drop_first())
    }
}

/// The encoding of a pointer to a place: the two highest bits set, and the place in
/// the other fourteen.
pub open spec fn pointer_bytes(place: int) -> Seq<u8> {
    seq![(0xC0 + place / 256) as u8, (place % 256) as u8]
}

/// Whether some bytes stand at a place of a message.
pub open spec fn stands_at(data: Seq<u8>, place: int, bytes: Seq<u8>) -> bool {
    0 <= place && place + bytes.len() <= data.len() && data.subrange(
        place,
        place + bytes.len(),
    ) == bytes
}

/// Whether each label has from 1 to 63 bytes.
pub open spec fn fit(labels: Seq<Seq<char>>) -> bool {
    forall|i: int| 0 <= i < labels.len() ==> 1 <= text::byte_len(#[trigger] labels[i]) <= 63
}

proof fn lemma_stands_apart(data: Seq<u8>, place: int, a: Seq<u8>, b: Seq<u8>)
    requires
        stands_at(data, place, a + b),
    ensures
        stands_at(data, place, a),
        stands_at(data, place + a.len(), b),
        forall|i: int| 0 <= i < a.len() ==> data[place + i] == #[trigger] a[i],
        forall|i: int| 0 <= i < b.len() ==> data[place + a.len() + i] == #[trigger] b[i],
{
    let whole = data.subrange(place, place + a.len() + b.len());
    assert(whole == a + b);
    assert forall|i: int| 0 <= i < a.len() implies data[place + i] == #[trigger] a[i] by {
        assert(whole[i] == (a + b)[i]);
    }
    assert forall|i: int| 0 <= i < b.len() implies data[place + a.len() + i]
        == #[trigger] b[i] by {
        assert(whole[a.len() + i] == (a + b)[a.len() + i]);
    }
    assert(data.subrange(place, place + a.len()) =~= a);
    assert(data.subrange(place + a.len(), place + a.len() + b.len()) =~= b);
}

proof fn lemma_labels_of_run(
    data: Seq<u8>,
    start: int,
    place: int,
    labels: Seq<Seq<char>>,
    hops: nat,
)
    requires
        fit(labels),
        stands_at(data, place, run_bytes(labels)),
    ensures
        dns::labels_at(data, start, place, hops) == match dns::labels_at(
            data,
            start,
            place + run_bytes(labels).len(),
            hops,
        ) {
            Some((rest, end)) => Some((labels + rest, end)),
            None => None,
        },
    decreases labels.len(),
{
    let next = dns::labels_at(data, start, place + run_bytes(labels).len(), hops);
    if labels.len() == 0 {
        if let Some((rest, end)) = next {
            assert(labels + rest =~= rest);
        }
    } else {
        let bytes = utf8::encode_utf8(labels[0]);
        let tail = labels.drop_first();
        let head = seq![bytes.len() as u8] + bytes;
        assert(1 <= text::byte_len(labels[0]) <= 63);
        lemma_stands_apart(data, place, head, run_bytes(tail));
        lemma_stands_apart(data, place, seq![bytes.len() as u8], bytes);
        assert(data[place + 0] == seq![bytes.len() as u8][0]);
        assert(data.subrange(place + 1, place + 1 + bytes.len()) =~= bytes);
        utf8::encode_utf8_valid_utf8(labels[0]);
        utf8::encode_utf8_decode_utf8(labels[0]);
        assert forall|i: int| 0 <= i < tail.len() implies 1 <= text::byte_len(#[trigger] tail[i])
            <= 63 by {
            assert(tail[i] == labels[i + 1]);
        }
        lemma_labels_of_run(data, start, place + head.len(), tail, hops);
        if let Some((rest, end)) = next {
            assert(seq![labels[0]] + (tail + rest) =~= labels + rest);
        }
    }
}

proof fn lemma_labels_not_empty(data: Seq<u8>, start: int, pos: int, hops: nat)
    ensures
        dns::labels_at(data, start, pos, hops) matches Some((labels, _)) ==> forall|i: int|
            0 <= i < labels.len() ==> (#[trigger] labels[i]).len() > 0,
    decreases hops, data.len() - pos,
{
    if 0 <= pos < data.len() && 0 < data[pos] < 0x40 {
        let next = pos + 1 + data[pos];
        if next <= data.len() {
            lemma_labels_not_empty(data, start, next, hops);
            let bytes = data.subrange(pos + 1, next);
            if utf8::valid_utf8(bytes) {
                utf8::decode_utf8_encode_utf8(bytes);
                if utf8::decode_utf8(bytes).len() == 0 {
                    assert(utf8::encode_utf8(utf8::decode_utf8(bytes)).len() == 0);
                }
            }
        }
    } else if 0 <= pos && pos + 1 < data.len() && data[pos] >= 0xC0 && hops > 0 {
        let target = dns::pointer_target(data, pos);
        if target < data.len() {
            lemma_labels_not_empty(data, target, target, (hops - 1) as nat);
        }
    }
}

proof fn lemma_name_len_concat(a: Seq<Seq<char>>, b: Seq<Seq<char>>)
    ensures
        dns::name_len(a + b) == dns::name_len(a) + dns::name_len(b),
    decreases b.len(),
{
    if b.len() == 0 {
        assert(a + b =~= a);
    } else {
        lemma_name_len_concat(a, b.drop_last());
        lemma_name_len_back(a + b.drop_last(), b.last());
        lemma_name_len_back(b.drop_last(), b.last());
        assert((a + b.drop_last()).push(b.last()) =~= a + b);
        assert(b.drop_last().push(b.last()) =~= b);
    }
}

proof fn lemma_join_is_empty(labels: Seq<Seq<char>>)
    requires
        forall|i: int| 0 <= i < labels.len() ==> (#[trigger] labels[i]).len() > 0,
    ensures
        text::join(labels, "."@).len() == 0 <==> labels.len() == 0,
{
    if labels.len() == 1 {
        assert(labels[0].len() > 0);
    } else if labels.len() > 1 {
        assert(labels[labels.len() - 1].len() > 0);
    }
}

/// Labels and the rest of a name, with a dot between neighbours.
pub open spec fn labels_and_rest(labels: Seq<Seq<char>>, rest: Seq<char>) -> Seq<char> {
    if rest.len() == 0 {
        text::join(labels, "."@)
    } else {
        text::join(labels.push(rest), "."@)
    }
}

/// A run of labels and a pointer are the labels and the name that stands where the
/// pointer leads, whether before or behind the run; that name counts one pointer
/// more. A name longer than 254 bytes is rejected, and so is a pointer beyond the
/// message, to itself, or to the run that it ends.
pub proof fn law_labels_and_pointer(
    data: Seq<u8>,
    offset: int,
    labels: Seq<Seq<char>>,
    place: int,
    depth: nat,
)
    requires
        fit(labels),
        0 <= place < 0x4000,
        depth <= 10,
        stands_at(data, offset, run_bytes(labels) + pointer_bytes(place)),
    ensures
        ({
            let end = offset + run_bytes(labels).len() + 2;
            dns::name_from(data, offset, depth) == if place >= data.len() || place == offset
                || place == end - 2 {
                None
            } else {
                match dns::name_from(data, place, depth + 1) {
                    Some((rest, _)) => if text::byte_len(labels_and_rest(labels, rest)) <= 254 {
                        Some((labels_and_rest(labels, rest), end))
                    } else {
                        None
                    },
                    None => None,
                }
            }
        }),
{
    let run = run_bytes(labels);
    let pos = offset + run.len();
    let hops = (10 - depth) as nat;
    lemma_stands_apart(data, offset, run, pointer_bytes(place));
    assert(data[pos + 0] == pointer_bytes(place)[0]);
    assert(data[pos + 1] == pointer_bytes(place)[1]);
    assert(data[pos] == 0xC0 + place / 256);
    lemma_labels_of_run(data, offset, offset, labels, hops);
    assert(dns::pointer_target(data, pos) == place);
    if place < data.len() && place != offset && place != pos && hops > 0 {
        let inner = dns::labels_at(data, place, place, (hops - 1) as nat);
        if let Some((rest, _)) = inner {
            lemma_labels_not_empty(data, place, place, (hops - 1) as nat);
            lemma_join_is_empty(rest);
            lemma_name_len_concat(labels, rest);
            lemma_joined_len(labels + rest);
            lemma_joined_len(rest);
            if rest.len() > 0 {
                numbers::lemma_join_concat(labels, rest, "."@);
            } else {
                assert(labels + rest =~= labels);
            }
        }
    }
}

/// Plain labels are read back, wherever in a message they stand, if the name has at
/// most 254 bytes; a longer name is rejected.
pub proof fn law_plain_name(data: Seq<u8>, offset: int, labels: Seq<Seq<char>>, depth: nat)
    requires
        fit(labels),
        depth <= 10,
        stands_at(data, offset, run_bytes(labels) + seq![0u8]),
    ensures
        dns::name_from(data, offset, depth) == if text::byte_len(text::join(labels, "."@)) <= 254 {
            Some((text::join(labels, "."@), offset + run_bytes(labels).len() + 1))
        } else {
            None
        },
{
    let pos = offset + run_bytes(labels).len();
    lemma_stands_apart(data, offset, run_bytes(labels), seq![0u8]);
    assert(data[pos + 0] == seq![0u8][0]);
    lemma_labels_of_run(data, offset, offset, labels, (10 - depth) as nat);
    lemma_joined_len(labels);
    assert(labels + Seq::<Seq<char>>::empty() =~= labels);
}

/// A pointer to plain labels gives them back, whichever of the first 16384 places
/// they stand at, and behind any labels before the pointer.
pub proof fn law_pointer_round_trip(
    data: Seq<u8>,
    place: int,
    labels: Seq<Seq<char>>,
    offset: int,
    before: Seq<Seq<char>>,
)
    requires
        fit(labels),
        fit(before),
        0 <= place < 0x4000,
        stands_at(data, place, run_bytes(labels) + seq![0u8]),
        stands_at(data, offset, run_bytes(before) + pointer_bytes(place)),
        place != offset,
        text::byte_len(text::join(before + labels, "."@)) <= 254,
    ensures
        dns::name_at(data, offset) == Some(
            (text::join(before + labels, "."@), offset + run_bytes(before).len() + 2),
        ),
{
    let pos = offset + run_bytes(before).len();
    lemma_stands_apart(data, place, run_bytes(labels), seq![0u8]);
    lemma_stands_apart(data, offset, run_bytes(before), pointer_bytes(place));
    assert(data[pos + 0] == pointer_bytes(place)[0]);
    if labels.len() > 0 {
        let bytes = utf8::encode_utf8(labels[0]);
        assert(1 <= text::byte_len(labels[0]) <= 63);
        assert(run_bytes(labels) =~= seq![bytes.len() as u8] + (bytes + run_bytes(
            labels.drop_first(),
        )));
        lemma_stands_apart(
            data,
            place,
            seq![bytes.len() as u8],
            bytes + run_bytes(labels.drop_first()),
        );
        assert(data[place + 0] == seq![bytes.len() as u8][0]);
    } else {
        assert(data[place + run_bytes(labels).len() + 0] == seq![0u8][0]);
    }
    assert(place != pos);
    law_labels_and_pointer(data, offset, before, place, 0);
    law_plain_name(data, place, labels, 1);
    lemma_joined_len(labels);
    lemma_joined_len(before + labels);
    lemma_name_len_concat(before, labels);
    assert forall|i: int| 0 <= i < labels.len() implies (#[trigger] labels[i]).len() > 0 by {
        assert(1 <= text::byte_len(labels[i]));
        if labels[i].len() == 0 {
            assert(utf8::encode_utf8(labels[i]).len() == 0);
        }
    }
    lemma_join_is_empty(labels);
    if labels.len() > 0 {
        numbers::lemma_join_concat(before, labels, "."@);
    } else {
        assert(before + labels =~= before);
    }
}

/// A name is rejected where its run of labels is followed by the end of the message,
/// by a byte from 64 to 191, by a single byte of a pointer, by a label that the
/// message does not hold, or by one that is not UTF-8.
pub proof fn law_broken_name_is_rejected(
    data: Seq<u8>,
    offset: int,
    labels: Seq<Seq<char>>,
    depth: nat,
)
    requires
        fit(labels),
        stands_at(data, offset, run_bytes(labels)),
        ({
            let pos = offset + run_bytes(labels).len();
            ||| pos == data.len()
            ||| 64 <= data[pos] <= 191
            ||| data[pos] >= 192 && pos + 1 == data.len()
            ||| 1 <= data[pos] <= 63 && pos + 1 + data[pos] > data.len()
            ||| 1 <= data[pos] <= 63 && pos + 1 + data[pos] <= data.len() && !utf8::valid_utf8(
                data.subrange(pos + 1, pos + 1 + data[pos]),
            )
        }),
    ensures
        dns::name_from(data, offset, depth) is None,
{
    if depth <= 10 {
        lemma_labels_of_run(data, offset, offset, labels, (10 - depth) as nat);
    }
}

/// Ten pointers may be followed before a name, and no more; a name cannot start
/// outside the message.
pub proof fn law_depth_is_ten(data: Seq<u8>, offset: int, depth: nat)
    ensures
        depth > 10 ==> dns::name_from(data, offset, depth) is None,
        offset < 0 || offset >= data.len() ==> dns::name_from(data, offset, depth) is None,
        dns::name_at(data, offset) == dns::name_from(data, offset, 0),
{
}

} // verus!
