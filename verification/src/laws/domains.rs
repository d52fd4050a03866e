//! Laws of base domains.

use vstd::prelude::*;

use crate::domain;
use crate::laws::numbers;
use crate::text;

verus! {

/// Whether none of the labels has a dot.
pub open spec fn without_dots(labels: Seq<Seq<char>>) -> bool {
    forall|i: int| 0 <= i < labels.len() ==> !(#[trigger] labels[i]).contains('.')
}

/// The base domain of a name is its last two labels, however many labels are before
/// them.
pub proof fn law_base_domain_is_the_last_two_labels(
    before: Seq<Seq<char>>,
    x: Seq<char>,
    y: Seq<char>,
)
    requires
        without_dots(before),
        !x.contains('.'),
        !y.contains('.'),
    ensures
        domain::base_domain(text::join(before.push(x).push(y), "."@)) == Some(x + "."@ + y),
{
    let labels = before.push(x).push(y);
    assert forall|i: int| 0 <= i < labels.len() implies !(#[trigger] labels[i]).contains('.') by {
        if i < before.len() {
            assert(labels[i] == before[i]);
        }
    }
    numbers::lemma_split_join(labels);
}

/// A name of one label has no base domain.
pub proof fn law_single_label_has_no_base_domain(label: Seq<char>)
    requires
        !label.contains('.'),
    ensures
        domain::base_domain(label) is None,
{
}

/// Whether a name is a domain, or ends with a dot and the domain.
pub open spec fn is_in(name: Seq<char>, base: Seq<char>) -> bool {
    name == base || exists|front: Seq<char>| name == #[trigger] (front + "."@) + base
}

proof fn lemma_is_in(name: Seq<char>, base: Seq<char>)
    ensures
        domain::is_under(name, base) <==> is_in(name, base),
{
    reveal_strlit(".");
    if domain::is_under(name, base) && name != base {
        let n = name.len() - base.len() - 1;
        let front = name.take(n);
        assert(name =~= (front + "."@) + base);
    }
    if name != base && is_in(name, base) {
        let front = choose|front: Seq<char>| name == #[trigger] (front + "."@) + base;
        assert(base =~= name.subrange(name.len() - base.len(), name.len() as int));
        assert(name[name.len() - base.len() - 1] == '.');
    }
}

/// Several names have the last two labels of the first in common where each of them
/// is that domain or ends with a dot and it, and otherwise nothing.
pub proof fn law_common_base_of_several_names(
    names: Seq<Seq<char>>,
    before: Seq<Seq<char>>,
    x: Seq<char>,
    y: Seq<char>,
)
    requires
        names.len() >= 2,
        without_dots(before),
        !x.contains('.'),
        !y.contains('.'),
        names[0] == text::join(before.push(x).push(y), "."@),
    ensures
        domain::common_base(names) == (if forall|i: int|
            0 <= i < names.len() ==> is_in(#[trigger] names[i], x + "."@ + y) {
            Some(x + "."@ + y)
        } else {
            None
        }),
{
    let base = x + "."@ + y;
    law_base_domain_is_the_last_two_labels(before, x, y);
    assert forall|i: int| 0 <= i < names.len() implies (domain::is_under(
        #[trigger] names[i],
        base,
    ) <==> is_in(names[i], base)) by {
        lemma_is_in(names[i], base);
    }
}

/// No name has nothing in common; a single name has itself; several, the first of
/// which has a single label, have nothing.
pub proof fn law_common_base_of_few_names(name: Seq<char>, others: Seq<Seq<char>>)
    ensures
        domain::common_base(Seq::empty()) is None,
        domain::common_base(seq![name]) == Some(name),
        !name.contains('.') && others.len() > 0 ==> domain::common_base(seq![name] + others)
            is None,
{
    assert((seq![name] + others)[0] == name);
}

} // verus!
