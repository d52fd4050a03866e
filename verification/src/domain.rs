//! Base domains of names.

use vstd::prelude::*;
use vstd::string::StrSliceExecFns;

use crate::seqs;
use crate::text;

verus! {

/// The last two labels of a name, with the dot between them; nothing where the
/// name has a single label.
pub open spec fn base_domain(name: Seq<char>) -> Option<Seq<char>> {
    let labels = text::split(name, '.');
    if labels.len() >= 2 {
        Some(labels[labels.len() - 2] + "."@ + labels[labels.len() - 1])
    } else {
        None
    }
}

/// Whether a name is a domain or lies under it: it ends with the domain, at the
/// boundary of a label.
pub open spec fn is_under(name: Seq<char>, base: Seq<char>) -> bool {
    name == base || (base.len() < name.len() && base.is_suffix_of(name) && name[name.len()
        - base.len() - 1] == '.')
}

/// The domain that all the names have in common: a single name is its own; of
/// several, the base domain of the first, where every name lies under it.
pub open spec fn common_base(names: Seq<Seq<char>>) -> Option<Seq<char>> {
    if names.len() == 0 {
        None
    } else if names.len() == 1 {
        Some(names[0])
    } else {
        match base_domain(names[0]) {
            Some(base) => if forall|i: int|
                0 <= i < names.len() ==> is_under(#[trigger] names[i], base) {
                Some(base)
            } else {
                None
            },
            None => None,
        }
    }
}

fn last_dot(chars: &Vec<char>, end: usize) -> (res: Option<usize>)
    requires
        end <= chars.len(),
    ensures
        match res {
            Some(i) => {
                &&& i < end
                &&& chars[i as int] == '.'
                &&& forall|j: int| i < j < end ==> chars[j] != '.'
            },
            None => forall|j: int| 0 <= j < end ==> chars[j] != '.',
        },
{
    let mut i: usize = end;
    while i > 0
        invariant
            i <= end <= chars.len(),
            forall|j: int| i <= j < end ==> chars[j] != '.',
        decreases i,
    {
        i = i - 1;
        if chars[i] == '.' {
            return Some(i);
        }
    }
    None
}

fn base_domain_text(name: &str) -> (res: Option<String>)
    ensures
        seqs::view_of_option(res) == base_domain(name@),
{
    let ghost s = name@;
    let chars: Vec<char> = text::chars_of(name);
    match last_dot(&chars, chars.len()) {
        None => {
            assert(!s.contains('.'));
            None
        },
        Some(i) => {
            let start: usize = match last_dot(&chars, i) {
                Some(j) => j + 1,
                None => 0,
            };
            let base: String = name.substring_char(start, chars.len()).to_string();
            proof {
                text::lemma_split_at_last(s, i as int, '.');
                let head = s.take(i as int);
                let before = text::split(head, '.');
                if start == 0 {
                    assert(!head.contains('.'));
                    assert(before.last() =~= head.subrange(start as int, i as int));
                } else {
                    text::lemma_split_at_last(head, start - 1, '.');
                    assert(before.last() =~= head.subrange(start as int, i as int));
                }
                reveal_strlit(".");
                assert(base@ =~= before.last() + "."@ + s.skip(i + 1));
            }
            Some(base)
        },
    }
}

fn is_under_text(name: &str, base: &str) -> (res: bool)
    ensures
        res == is_under(name@, base@),
{
    if text::same_text(name, base) {
        return true;
    }
    let chars: Vec<char> = text::chars_of(name);
    let base_len: usize = text::chars_of(base).len();
    if chars.len() <= base_len {
        return false;
    }
    let from: usize = chars.len() - base_len;
    chars[from - 1] == '.' && text::same_text(name.substring_char(from, chars.len()), base)
}

/// Finds the domain that all the names have in common.
pub fn common_base_domain(names: &Vec<String>) -> (res: Option<String>)
    ensures
        seqs::view_of_option(res) == common_base(seqs::views(names@)),
{
    let ghost all = seqs::views(names@);
    if names.len() == 0 {
        return None;
    }
    if names.len() == 1 {
        return Some(names[0].clone());
    }
    let base: String = match base_domain_text(names[0].as_str()) {
        Some(base) => base,
        None => {
            return None;
        },
    };
    let mut i: usize = 0;
    while i < names.len()
        invariant
            i <= names.len(),
            names.len() >= 2,
            all == seqs::views(names@),
            base_domain(all[0]) == Some(base@),
            forall|j: int| 0 <= j < i ==> is_under(#[trigger] all[j], base@),
        decreases names.len() - i,
    {
        if !is_under_text(names[i].as_str(), base.as_str()) {
            assert(!is_under(all[i as int], base@));
            return None;
        }
        i = i + 1;
    }
    Some(base)
}

} // verus!
