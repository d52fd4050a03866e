//! Laws of numbers and texts: what a written number or a joined text stands for.

use vstd::prelude::*;

use crate::seqs;
use crate::text;
use crate::wire;

verus! {

/// Two bytes are a number, the first counting for 256 of the second; four bytes
/// are one in the same way.
pub proof fn law_first_byte_counts_most(data: Seq<u8>, i: int)
    requires
        0 <= i,
        i + 1 < data.len(),
    ensures
        wire::be16(data, i) as int == 256 * data[i] + data[i + 1],
        i + 3 < data.len() ==> wire::be32(data, i) as int == 16777216 * data[i] + 65536 * data[i
            + 1] + 256 * data[i + 2] + data[i + 3],
{
}

/// What a digit stands for.
pub open spec fn digit_value(c: char) -> int {
    if '0' <= c <= '9' {
        c as int - '0' as int
    } else {
        c as int - 'a' as int + 10
    }
}

/// What a numeral to a base stands for: each digit counts for the base of the next.
pub open spec fn numeral_value(s: Seq<char>, base: int) -> int
    decreases s.len(),
{
    if s.len() == 0 {
        0
    } else {
        base * numeral_value(s.drop_last(), base) + digit_value(s.last())
    }
}

proof fn lemma_numeral(n: nat, base: nat)
    requires
        base == 10 || base == 16,
    ensures
        numeral_value(text::numeral(n, base), base as int) == n,
        text::numeral(n, base).len() > 0,
        forall|i: int|
            0 <= i < text::numeral(n, base).len() ==> 0 <= digit_value(
                #[trigger] text::numeral(n, base)[i],
            ) < base && ('0' <= text::numeral(n, base)[i] <= '9' || 'a' <= text::numeral(
                n,
                base,
            )[i] <= 'f'),
        n > 0 ==> text::numeral(n, base)[0] != '0',
        n == 0 ==> text::numeral(n, base) == seq!['0'],
    decreases n,
{
    let s = text::numeral(n, base);
    if n < base {
        assert(s =~= seq![text::digit(n)]);
        assert(s.drop_last() =~= Seq::empty());
        assert(numeral_value(s.drop_last(), base as int) == 0);
    } else {
        assert(n / base < n && n / base > 0) by (nonlinear_arith)
            requires
                n >= base,
                base >= 2,
        ;
        lemma_numeral(n / base, base);
        let front = text::numeral(n / base, base);
        assert(s.drop_last() =~= front);
        assert(n == base * (n / base) + n % base) by (nonlinear_arith)
            requires
                base > 0,
        ;
        assert(s[0] == front[0]);
    }
}

/// A decimal numeral stands for its number, is made of the digits from 0 to 9, and
/// starts with 0 only where it is 0.
pub proof fn law_decimal_numeral_stands_for_its_number(n: nat)
    ensures
        numeral_value(text::decimal(n), 10) == n,
        text::decimal(n).len() > 0,
        forall|i: int|
            0 <= i < text::decimal(n).len() ==> '0' <= #[trigger] text::decimal(n)[i] <= '9',
        n > 0 ==> text::decimal(n)[0] != '0',
        n == 0 ==> text::decimal(n) == seq!['0'],
{
    lemma_numeral(n, 10);
}

/// A hexadecimal numeral stands for its number, is made of the digits from 0 to 9
/// and from a to f, and starts with 0 only where it is 0.
pub proof fn law_hex_numeral_stands_for_its_number(n: nat)
    ensures
        numeral_value(text::hex(n), 16) == n,
        text::hex(n).len() > 0,
        forall|i: int|
            0 <= i < text::hex(n).len() ==> '0' <= #[trigger] text::hex(n)[i] <= '9' || 'a'
                <= text::hex(n)[i] <= 'f',
        n > 0 ==> text::hex(n)[0] != '0',
        n == 0 ==> text::hex(n) == seq!['0'],
{
    lemma_numeral(n, 16);
}

/// Joined parts follow one another with the separator between neighbours, and
/// nowhere else.
pub proof fn law_separator_stands_between_parts(
    parts: Seq<Seq<char>>,
    part: Seq<char>,
    sep: Seq<char>,
)
    ensures
        text::join(Seq::empty(), sep) == Seq::<char>::empty(),
        text::join(seq![part], sep) == part,
        parts.len() > 0 ==> text::join(parts.push(part), sep) == text::join(parts, sep) + sep
            + part,
{
    if parts.len() > 0 {
        assert(parts.push(part).drop_last() =~= parts);
    }
}

pub proof fn lemma_join_concat(a: Seq<Seq<char>>, b: Seq<Seq<char>>, sep: Seq<char>)
    requires
        b.len() > 0,
    ensures
        text::join(a + b, sep) == text::join(a.push(text::join(b, sep)), sep),
    decreases b.len(),
{
    let whole = text::join(b, sep);
    assert(a.push(whole).drop_last() =~= a);
    if b.len() == 1 {
        assert(a + b =~= a.push(b[0]));
    } else {
        let front = b.drop_last();
        lemma_join_concat(a, front, sep);
        assert((a + b).drop_last() =~= a + front);
        assert((a + b).last() == b.last());
        let part = text::join(front, sep);
        assert(a.push(part).drop_last() =~= a);
        if a.len() == 0 {
            assert(a.push(part) =~= seq![part]);
            assert(a.push(whole) =~= seq![whole]);
        } else {
            assert(text::join(a.push(part), sep) == text::join(a, sep) + sep + part);
            assert(text::join(a.push(whole), sep) == text::join(a, sep) + sep + whole);
            assert(text::join(a, sep) + sep + part + sep + b.last() =~= text::join(a, sep) + sep
                + (part + sep + b.last()));
        }
    }
}

pub proof fn lemma_split_join(parts: Seq<Seq<char>>)
    requires
        parts.len() > 0,
        forall|i: int| 0 <= i < parts.len() ==> !(#[trigger] parts[i]).contains('.'),
    ensures
        text::split(text::join(parts, "."@), '.') == parts,
    decreases parts.len(),
{
    let whole = text::join(parts, "."@);
    if parts.len() == 1 {
        assert(!parts[0].contains('.'));
        assert(seq![parts[0]] =~= parts);
    } else {
        let front = parts.drop_last();
        lemma_split_join(front);
        reveal_strlit(".");
        let head = text::join(front, "."@);
        let i = head.len() as int;
        assert(whole == head + "."@ + parts.last());
        assert(whole[i] == '.');
        assert(!parts[parts.len() - 1].contains('.'));
        assert forall|j: int| i < j < whole.len() implies whole[j] != '.' by {
            assert(whole[j] == parts.last()[j - i - 1]);
        }
        text::lemma_split_at_last(whole, i, '.');
        assert(whole.take(i) =~= head);
        assert(whole.skip(i + 1) =~= parts.last());
        assert(front.push(parts.last()) =~= parts);
    }
}

/// Splitting at dots takes apart what joining with dots put together.
pub proof fn law_split_undoes_join(parts: Seq<Seq<char>>)
    requires
        parts.len() > 0,
        forall|i: int| 0 <= i < parts.len() ==> !(#[trigger] parts[i]).contains('.'),
    ensures
        text::split(text::join(parts, "."@), '.') == parts,
{
    lemma_split_join(parts);
}

/// Joining with dots puts together what splitting at dots took apart, and no piece
/// has a dot.
pub proof fn law_join_undoes_split(s: Seq<char>)
    ensures
        text::join(text::split(s, '.'), "."@) == s,
        text::split(s, '.').len() > 0,
        forall|i: int|
            0 <= i < text::split(s, '.').len() ==> !(#[trigger] text::split(s, '.')[i]).contains(
                '.',
            ),
    decreases s.len(),
{
    if s.contains('.') {
        s.index_of_first_ensures('.');
        let i = s.index_of_first('.')->0;
        let rest = text::split(s.skip(i + 1), '.');
        law_join_undoes_split(s.skip(i + 1));
        let all = text::split(s, '.');
        assert(all == seq![s.take(i)] + rest);
        lemma_join_concat(seq![s.take(i)], rest, "."@);
        law_separator_stands_between_parts(seq![s.take(i)], s.skip(i + 1), "."@);
        law_separator_stands_between_parts(seq![s.take(i)], s.take(i), "."@);
        reveal_strlit(".");
        assert(s.take(i) + "."@ + s.skip(i + 1) =~= s);
        assert(!s.take(i).contains('.'));
        assert forall|j: int| 0 <= j < all.len() implies !(#[trigger] all[j]).contains('.') by {
            if j > 0 {
                assert(all[j] == rest[j - 1]);
            }
        }
    }
}

/// At most so many items are the first ones, as many as there are up to the limit.
pub proof fn law_at_most_takes_the_first<T>(items: Seq<T>, limit: int)
    requires
        limit >= 0,
    ensures
        seqs::at_most(items, limit).is_prefix_of(items),
        seqs::at_most(items, limit).len() == (if items.len() < limit {
            items.len() as int
        } else {
            limit
        }),
{
}

/// The length of a text in bytes: of each character one, two, three or four.
pub proof fn law_byte_length_of_text(s: Seq<char>, c: char)
    ensures
        text::byte_len(Seq::empty()) == 0,
        text::byte_len(s.push(c)) == text::byte_len(s) + (if c as u32 <= 0x7F {
            1int
        } else if c as u32 <= 0x7FF {
            2
        } else if c as u32 <= 0xFFFF {
            3
        } else {
            4
        }),
{
    text::lemma_byte_len_push(s, c);
}

} // verus!
