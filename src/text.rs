use vstd::prelude::*;

verus! {

/// Two texts joined at a separator are equal only part by part, when the
/// left parts hold no separator.
pub proof fn lemma_split_at(x1: Seq<char>, y1: Seq<char>, x2: Seq<char>, y2: Seq<char>, sep: char)
    requires
        x1 + seq![sep] + y1 == x2 + seq![sep] + y2,
        forall|i: int| 0 <= i < x1.len() ==> #[trigger] x1[i] != sep,
        forall|i: int| 0 <= i < x2.len() ==> #[trigger] x2[i] != sep,
    ensures
        x1 == x2,
        y1 == y2,
{
    let t = x1 + seq![sep] + y1;
    let t2 = x2 + seq![sep] + y2;
    if x1.len() < x2.len() {
        assert(t[x1.len() as int] == sep);
        assert(t2[x1.len() as int] == x2[x1.len() as int]);
    } else if x2.len() < x1.len() {
        assert(t2[x2.len() as int] == sep);
        assert(t[x2.len() as int] == x1[x2.len() as int]);
    }
    assert(x1 =~= t.subrange(0, x1.len() as int));
    assert(x2 =~= t2.subrange(0, x2.len() as int));
    assert(y1 =~= t.subrange(x1.len() as int + 1, t.len() as int));
    assert(y2 =~= t2.subrange(x2.len() as int + 1, t2.len() as int));
}

} // verus!
