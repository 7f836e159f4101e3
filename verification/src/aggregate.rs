//! Putting the results of a run in order: by file name, whatever the
//! order in which the files finished.

use crate::analysis::FileAnalysis;
use vstd::prelude::*;
use vstd::std_specs::iter::IteratorSpec;

verus! {

/// Whether the name `a` stands at or before the name `b` in lexicographic
/// order of code points.
pub open spec fn name_le(a: Seq<char>, b: Seq<char>) -> bool
    decreases a.len(),
{
    if a.len() == 0 {
        true
    } else if b.len() == 0 {
        false
    } else if a[0] != b[0] {
        (a[0] as u32) < (b[0] as u32)
    } else {
        name_le(a.drop_first(), b.drop_first())
    }
}

/// Every name stands at its own place.
pub proof fn lemma_name_le_reflexive(a: Seq<char>)
    ensures
        name_le(a, a),
    decreases a.len(),
{
    if a.len() > 0 {
        lemma_name_le_reflexive(a.drop_first());
    }
}

/// Of two names one stands at or before the other.
pub proof fn lemma_name_le_total(a: Seq<char>, b: Seq<char>)
    ensures
        name_le(a, b) || name_le(b, a),
    decreases a.len(),
{
    if a.len() > 0 && b.len() > 0 {
        if a[0] == b[0] {
            lemma_name_le_total(a.drop_first(), b.drop_first());
        } else {
            vstd::utf8::char_u32_cast(a[0], a[0] as u32);
            vstd::utf8::char_u32_cast(b[0], b[0] as u32);
        }
    }
}

/// Two names that stand at or before each other are one name.
pub proof fn lemma_name_le_antisymmetric(a: Seq<char>, b: Seq<char>)
    requires
        name_le(a, b),
        name_le(b, a),
    ensures
        a == b,
    decreases a.len(),
{
    if a.len() > 0 && b.len() > 0 {
        lemma_name_le_antisymmetric(a.drop_first(), b.drop_first());
        assert(a =~= seq![a[0]] + a.drop_first());
        assert(b =~= seq![b[0]] + b.drop_first());
    } else {
        assert(a =~= b);
    }
}

/// The order of names is transitive.
pub proof fn lemma_name_le_transitive(a: Seq<char>, b: Seq<char>, c: Seq<char>)
    requires
        name_le(a, b),
        name_le(b, c),
    ensures
        name_le(a, c),
    decreases a.len(),
{
    if a.len() > 0 && b.len() > 0 && c.len() > 0 && a[0] == b[0] && b[0] == c[0] {
        lemma_name_le_transitive(a.drop_first(), b.drop_first(), c.drop_first());
    }
}

/// Decides whether the code point of `p` is the smaller one.
fn code_before(p: char, q: char) -> (before: bool)
    ensures
        before == ((p as u32) < (q as u32)),
{
    p < q
}

/// Decides whether the name `a` stands at or before the name `b`.
pub fn name_at_or_before(a: &str, b: &str) -> (before: bool)
    ensures
        before == name_le(a@, b@),
{
    let mut xs = a.chars();
    let mut ys = b.chars();
    let ghost mut k: int = 0;
    proof {
        assert(a@.skip(0) =~= a@);
        assert(b@.skip(0) =~= b@);
    }
    loop
        invariant
            0 <= k <= a@.len(),
            k <= b@.len(),
            xs.remaining() == a@.skip(k),
            ys.remaining() == b@.skip(k),
            name_le(a@, b@) == name_le(a@.skip(k), b@.skip(k)),
        decreases a@.len() - k,
    {
        let x = xs.next();
        let y = ys.next();
        proof {
            if k < a@.len() {
                assert(a@.skip(k).drop_first() =~= a@.skip(k + 1));
            }
            if k < b@.len() {
                assert(b@.skip(k).drop_first() =~= b@.skip(k + 1));
            }
        }
        match x {
            None => {
                return true;
            },
            Some(p) => {
                match y {
                    None => {
                        return false;
                    },
                    Some(q) => {
                        if p != q {
                            return code_before(p, q);
                        }
                    },
                }
            },
        }
        proof {
            k = k + 1;
        }
    }
}

/// Whether `results` stand in the order of their file names.
pub open spec fn sorted_by_name(results: Seq<FileAnalysis>) -> bool {
    forall|i: int, j: int|
        0 <= i < j < results.len() ==> name_le(
            (#[trigger] results[i]).filename@,
            (#[trigger] results[j]).filename@,
        )
}

/// The results for the file called `name`, in the order in which they
/// stand in `results`.
pub open spec fn named(results: Seq<FileAnalysis>, name: Seq<char>) -> Seq<FileAnalysis> {
    results.filter(|r: FileAnalysis| r.filename@ == name)
}

/// Whether `after` is `before` put in the order of the file names: the
/// same results, sorted, and results for one name in the order they had.
pub open spec fn is_sorted_from(before: Seq<FileAnalysis>, after: Seq<FileAnalysis>) -> bool {
    &&& sorted_by_name(after)
    &&& after.to_multiset() == before.to_multiset()
    &&& forall|name: Seq<char>| #[trigger] named(after, name) == named(before, name)
}

/// Results that all have another name contribute nothing under `name`.
proof fn lemma_named_none(results: Seq<FileAnalysis>, name: Seq<char>)
    requires
        forall|i: int| 0 <= i < results.len() ==> (#[trigger] results[i]).filename@ != name,
    ensures
        named(results, name) == Seq::<FileAnalysis>::empty(),
    decreases results.len(),
{
    reveal(Seq::filter);
    if results.len() > 0 {
        let front = results.drop_last();
        assert forall|i: int| 0 <= i < front.len() implies (#[trigger] front[i]).filename@
            != name by {
            assert(front[i] == results[i]);
        }
        lemma_named_none(front, name);
        assert(results.last() == results[results.len() - 1]);
    }
}

/// Placing `item` behind every result that stands at or before it, and
/// before every result that stands after it, keeps the order, adds
/// `item` and nothing else, and puts `item` last among its namesakes.
proof fn lemma_insert_keeps_order(sorted: Seq<FileAnalysis>, at: int, item: FileAnalysis)
    requires
        sorted_by_name(sorted),
        0 <= at <= sorted.len(),
        forall|i: int| 0 <= i < at ==> name_le((#[trigger] sorted[i]).filename@, item.filename@),
        forall|i: int|
            at <= i < sorted.len() ==> !name_le((#[trigger] sorted[i]).filename@, item.filename@),
    ensures
        sorted_by_name(sorted.insert(at, item)),
        sorted.insert(at, item).to_multiset() == sorted.to_multiset().insert(item),
        forall|name: Seq<char>| #[trigger]
            named(sorted.insert(at, item), name) == named(sorted.push(item), name),
{
    let longer = sorted.insert(at, item);
    assert forall|i: int, j: int| 0 <= i < j < longer.len() implies name_le(
        (#[trigger] longer[i]).filename@,
        (#[trigger] longer[j]).filename@,
    ) by {
        if j < at {
            assert(longer[i] == sorted[i] && longer[j] == sorted[j]);
        } else if j == at {
            assert(longer[i] == sorted[i]);
        } else if i < at {
            assert(longer[i] == sorted[i] && longer[j] == sorted[j - 1]);
        } else if i == at {
            assert(longer[j] == sorted[j - 1]);
            lemma_name_le_total(sorted[j - 1].filename@, item.filename@);
        } else {
            assert(longer[i] == sorted[i - 1] && longer[j] == sorted[j - 1]);
        }
    }
    vstd::seq_lib::to_multiset_insert(sorted, at, item);
    assert forall|name: Seq<char>| #[trigger]
        named(longer, name) == named(sorted.push(item), name) by {
        let wanted = |r: FileAnalysis| r.filename@ == name;
        let head = sorted.take(at);
        let tail = sorted.skip(at);
        let one = seq![item];
        assert(longer =~= head + one + tail);
        assert(sorted.push(item) =~= head + tail + one);
        Seq::filter_distributes_over_add(head + one, tail, wanted);
        Seq::filter_distributes_over_add(head, one, wanted);
        Seq::filter_distributes_over_add(head + tail, one, wanted);
        Seq::filter_distributes_over_add(head, tail, wanted);
        if item.filename@ == name {
            assert forall|i: int| 0 <= i < tail.len() implies (#[trigger] tail[i]).filename@
                != name by {
                assert(tail[i] == sorted[at + i]);
                lemma_name_le_reflexive(name);
            }
            lemma_named_none(tail, name);
        } else {
            lemma_named_none(one, name);
        }
    }
}

/// Puts `results` in the order of their file names. Results for the same
/// name, should there be any, keep the order in which they came.
pub fn sort_by_filename(results: Vec<FileAnalysis>) -> (sorted: Vec<FileAnalysis>)
    ensures
        is_sorted_from(results@, sorted@),
        sorted@.len() == results@.len(),
{
    let mut sorted: Vec<FileAnalysis> = Vec::new();
    let ghost mut taken: Seq<FileAnalysis> = Seq::empty();
    proof {
        assert(results@.take(0) =~= taken);
    }
    for item in it: results
        invariant
            it.seq() == results@,
            taken == results@.take(it.index() as int),
            is_sorted_from(taken, sorted@),
            sorted@.len() == it.index(),
    {
        let mut at: usize = sorted.len();
        while at > 0 && !name_at_or_before(sorted[at - 1].filename.as_str(), item.filename.as_str())
            invariant
                at <= sorted@.len(),
                forall|i: int|
                    at <= i < sorted@.len() ==> !name_le(
                        (#[trigger] sorted@[i]).filename@,
                        item.filename@,
                    ),
            decreases at,
        {
            at = at - 1;
        }
        proof {
            assert forall|i: int| 0 <= i < at implies name_le(
                (#[trigger] sorted@[i]).filename@,
                item.filename@,
            ) by {
                if i < at - 1 {
                    assert(name_le(sorted@[i].filename@, sorted@[at - 1].filename@));
                    lemma_name_le_transitive(
                        sorted@[i].filename@,
                        sorted@[at - 1].filename@,
                        item.filename@,
                    );
                }
            }
            lemma_insert_keeps_order(sorted@, at as int, item);
            let grown = results@.take(it.index() + 1);
            assert(grown =~= taken.push(item));
            vstd::seq_lib::to_multiset_build(taken, item);
            assert forall|name: Seq<char>| #[trigger]
                named(sorted@.insert(at as int, item), name) == named(grown, name) by {
                let wanted = |r: FileAnalysis| r.filename@ == name;
                assert(named(sorted@.insert(at as int, item), name) == named(
                    sorted@.push(item),
                    name,
                ));
                assert(named(sorted@, name) == named(taken, name));
                Seq::filter_distributes_over_add(sorted@, seq![item], wanted);
                Seq::filter_distributes_over_add(taken, seq![item], wanted);
                assert(sorted@.push(item) =~= sorted@ + seq![item]);
                assert(taken.push(item) =~= taken + seq![item]);
            }
            taken = grown;
        }
        sorted.insert(at, item);
    }
    proof {
        assert(results@.take(results@.len() as int) =~= results@);
    }
    sorted
}

} // verus!
