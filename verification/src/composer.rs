//! Prompt Composer: order a set of labeled content blocks into a
//! deterministic context sequence.
//!
//! The rule is a stable ascending sort on the `order` field followed by
//! dropping every disabled block. `sort_blocks` below is a stable insertion
//! sort: a block is inserted after every already-placed block whose order is
//! less than or equal to its own, so blocks with equal order keep their
//! original relative position.

use vstd::prelude::*;

use crate::models::PromptBlock;
use crate::models::PromptBlockView;

verus! {

broadcast use vstd::seq_lib::group_to_multiset_ensures, vstd::multiset::group_multiset_axioms;

/// Spec-level image of a block sequence.
pub open spec fn blocks_view(s: Seq<PromptBlock>) -> Seq<PromptBlockView> {
    s.map_values(|b: PromptBlock| b@)
}

/// Insert `b` behind every block of `s` whose order is at most `b.order`.
pub open spec fn insert_block(s: Seq<PromptBlockView>, b: PromptBlockView) -> Seq<PromptBlockView>
    decreases s.len(),
{
    if s.len() == 0 {
        seq![b]
    } else if s.last().order <= b.order {
        s.push(b)
    } else {
        insert_block(s.drop_last(), b).push(s.last())
    }
}

/// Stable insertion sort by the `order` field, ascending.
pub open spec fn sort_blocks(s: Seq<PromptBlockView>) -> Seq<PromptBlockView>
    decreases s.len(),
{
    if s.len() == 0 {
        Seq::<PromptBlockView>::empty()
    } else {
        insert_block(sort_blocks(s.drop_last()), s.last())
    }
}

/// The subsequence of enabled blocks, order preserved.
pub open spec fn enabled_only(s: Seq<PromptBlockView>) -> Seq<PromptBlockView>
    decreases s.len(),
{
    if s.len() == 0 {
        Seq::<PromptBlockView>::empty()
    } else if s.last().enabled {
        enabled_only(s.drop_last()).push(s.last())
    } else {
        enabled_only(s.drop_last())
    }
}

/// What composing yields: the stable sort of the input, restricted to its
/// enabled blocks.
pub open spec fn compose_spec(s: Seq<PromptBlockView>) -> Seq<PromptBlockView> {
    enabled_only(sort_blocks(s))
}

/// Ascending by the `order` field.
pub open spec fn sorted_by_order(s: Seq<PromptBlockView>) -> bool {
    forall|i: int, j: int| 0 <= i < j < s.len() ==> s[i].order <= s[j].order
}

proof fn lemma_insert_block_at(s: Seq<PromptBlockView>, b: PromptBlockView, pos: int)
    requires
        0 <= pos <= s.len(),
        forall|j: int| pos <= j < s.len() ==> s[j].order > b.order,
        pos > 0 ==> s[pos - 1].order <= b.order,
    ensures
        insert_block(s, b) == s.subrange(0, pos) + seq![b] + s.subrange(pos, s.len() as int),
    decreases s.len(),
{
    if s.len() == 0 {
        assert(insert_block(s, b) =~= s.subrange(0, pos) + seq![b] + s.subrange(
            pos,
            s.len() as int,
        ));
    } else if pos == s.len() {
        assert(s.last().order <= b.order);
        assert(s.push(b) =~= s.subrange(0, pos) + seq![b] + s.subrange(pos, s.len() as int));
    } else {
        assert(s.last().order > b.order);
        let t = s.drop_last();
        lemma_insert_block_at(t, b, pos);
        assert(insert_block(t, b).push(s.last()) =~= s.subrange(0, pos) + seq![b] + s.subrange(
            pos,
            s.len() as int,
        ));
    }
}

proof fn lemma_insert_block_sorted(s: Seq<PromptBlockView>, b: PromptBlockView)
    requires
        sorted_by_order(s),
    ensures
        sorted_by_order(insert_block(s, b)),
        insert_block(s, b).to_multiset() == s.to_multiset().insert(b),
        insert_block(s, b).len() == s.len() + 1,
    decreases s.len(),
{
    if s.len() == 0 {
        assert(seq![b] =~= Seq::<PromptBlockView>::empty().push(b));
        assert(insert_block(s, b).to_multiset() =~= s.to_multiset().insert(b));
    } else if s.last().order <= b.order {
        assert(sorted_by_order(s.push(b)));
    } else {
        let t = s.drop_last();
        assert(sorted_by_order(t));
        lemma_insert_block_sorted(t, b);
        let u = insert_block(t, b);
        assert forall|i: int| 0 <= i < u.len() implies (#[trigger] u[i]).order <= s.last().order by {
            assert(u.contains(u[i]));
            assert(u.to_multiset().count(u[i]) > 0);
            if u[i] != b {
                assert(t.to_multiset().count(u[i]) > 0);
                assert(t.contains(u[i]));
                let k = choose|k: int| 0 <= k < t.len() && t[k] == u[i];
                assert(s[k].order <= s.last().order);
            }
        }
        assert(sorted_by_order(u.push(s.last())));
        assert(insert_block(s, b).to_multiset() =~= s.to_multiset().insert(b)) by {
            assert(u.push(s.last()).to_multiset() == u.to_multiset().insert(s.last()));
            assert(t.push(s.last()) =~= s);
        }
    }
}

/// The blocks with equal content that `enabled_only` keeps, as a multiset
/// filter over the input.
proof fn lemma_enabled_only_multiset(s: Seq<PromptBlockView>)
    ensures
        enabled_only(s).to_multiset() == s.to_multiset().filter(|b: PromptBlockView| b.enabled),
        forall|i: int| 0 <= i < enabled_only(s).len() ==> (#[trigger] enabled_only(s)[i]).enabled,
    decreases s.len(),
{
    let p = |b: PromptBlockView| b.enabled;
    if s.len() == 0 {
        assert(enabled_only(s).to_multiset() =~= s.to_multiset().filter(p));
    } else {
        let t = s.drop_last();
        lemma_enabled_only_multiset(t);
        assert(t.push(s.last()) =~= s);
        assert(s.to_multiset() == t.to_multiset().insert(s.last()));
        if s.last().enabled {
            assert(enabled_only(s).to_multiset() == enabled_only(t).to_multiset().insert(s.last()));
            assert(enabled_only(t).to_multiset().insert(s.last()) =~= s.to_multiset().filter(p));
        } else {
            assert(enabled_only(t).to_multiset() =~= s.to_multiset().filter(p));
        }
    }
}

proof fn lemma_enabled_only_sorted(s: Seq<PromptBlockView>)
    requires
        sorted_by_order(s),
    ensures
        sorted_by_order(enabled_only(s)),
    decreases s.len(),
{
    if s.len() > 0 {
        let t = s.drop_last();
        assert(sorted_by_order(t));
        lemma_enabled_only_sorted(t);
        if s.last().enabled {
            let u = enabled_only(t);
            lemma_enabled_only_multiset(t);
            assert forall|i: int| 0 <= i < u.len() implies (#[trigger] u[i]).order
                <= s.last().order by {
                assert(u.contains(u[i]));
                assert(u.to_multiset().count(u[i]) > 0);
                assert(t.to_multiset().count(u[i]) > 0);
                assert(t.contains(u[i]));
                let k = choose|k: int| 0 <= k < t.len() && t[k] == u[i];
                assert(s[k].order <= s.last().order);
            }
            assert(sorted_by_order(u.push(s.last())));
        }
    }
}

/// Composing yields blocks sorted ascending by `order`, every one of them
/// enabled, and as a multiset exactly the enabled blocks of the input.
pub proof fn lemma_compose_exact(s: Seq<PromptBlockView>)
    ensures
        sorted_by_order(compose_spec(s)),
        forall|i: int| 0 <= i < compose_spec(s).len() ==> (#[trigger] compose_spec(s)[i]).enabled,
        compose_spec(s).to_multiset() == s.to_multiset().filter(|b: PromptBlockView| b.enabled),
    decreases s.len(),
{
    lemma_sort_blocks_sorted(s);
    lemma_enabled_only_sorted(sort_blocks(s));
    lemma_enabled_only_multiset(sort_blocks(s));
}

proof fn lemma_sort_blocks_sorted(s: Seq<PromptBlockView>)
    ensures
        sorted_by_order(sort_blocks(s)),
        sort_blocks(s).to_multiset() == s.to_multiset(),
        sort_blocks(s).len() == s.len(),
    decreases s.len(),
{
    if s.len() == 0 {
        assert(sort_blocks(s).to_multiset() =~= s.to_multiset());
    } else {
        let t = s.drop_last();
        lemma_sort_blocks_sorted(t);
        lemma_insert_block_sorted(sort_blocks(t), s.last());
        assert(t.push(s.last()) =~= s);
        assert(sort_blocks(s).to_multiset() =~= s.to_multiset());
    }
}

proof fn lemma_sort_blocks_of_sorted(s: Seq<PromptBlockView>)
    requires
        sorted_by_order(s),
    ensures
        sort_blocks(s) == s,
    decreases s.len(),
{
    if s.len() > 0 {
        let t = s.drop_last();
        assert(sorted_by_order(t));
        lemma_sort_blocks_of_sorted(t);
        if t.len() == 0 {
            assert(insert_block(t, s.last()) =~= s);
        } else {
            assert(t.last().order <= s.last().order);
            assert(t.push(s.last()) =~= s);
        }
    }
}

proof fn lemma_enabled_only_of_enabled(s: Seq<PromptBlockView>)
    requires
        forall|i: int| 0 <= i < s.len() ==> (#[trigger] s[i]).enabled,
    ensures
        enabled_only(s) == s,
    decreases s.len(),
{
    if s.len() > 0 {
        let t = s.drop_last();
        lemma_enabled_only_of_enabled(t);
        assert(t.push(s.last()) =~= s);
    }
}

/// Composing is idempotent: reapplied to its own output it changes nothing.
pub proof fn lemma_compose_idempotent(s: Seq<PromptBlockView>)
    ensures
        compose_spec(compose_spec(s)) == compose_spec(s),
{
    let c = compose_spec(s);
    lemma_compose_exact(s);
    lemma_sort_blocks_of_sorted(c);
    lemma_enabled_only_of_enabled(c);
}

fn insert_block_vec(out: &mut Vec<PromptBlock>, b: PromptBlock)
    ensures
        blocks_view(final(out)@) == insert_block(blocks_view(old(out)@), b@),
{
    let ghost s = blocks_view(out@);
    let n = out.len();
    let mut pos: usize = n;
    while pos > 0 && out[pos - 1].order > b.order
        invariant
            0 <= pos <= n,
            n == out@.len(),
            s == blocks_view(out@),
            forall|j: int| pos <= j < n ==> s[j].order > b@.order,
        decreases pos,
    {
        assert(s[pos - 1] == out@[pos - 1]@);
        pos = pos - 1;
    }
    proof {
        if pos > 0 {
            assert(s[pos - 1] == out@[pos - 1]@);
        }
        lemma_insert_block_at(s, b@, pos as int);
    }
    out.insert(pos, b);
    proof {
        assert(blocks_view(out@) =~= s.subrange(0, pos as int) + seq![b@] + s.subrange(
            pos as int,
            s.len() as int,
        ));
    }
}

/// Compose a prompt context: sort the blocks ascending by `order` (stable
/// under ties) and keep only the enabled ones.
pub fn compose_prompt(blocks: Vec<PromptBlock>) -> (r: Vec<PromptBlock>)
    ensures
        blocks_view(r@) == compose_spec(blocks_view(blocks@)),
{
    let ghost orig = blocks_view(blocks@);
    let mut rest = blocks;
    let mut sorted: Vec<PromptBlock> = Vec::new();
    let ghost mut i: int = 0;
    while rest.len() > 0
        invariant
            0 <= i <= orig.len(),
            blocks_view(rest@) == orig.subrange(i, orig.len() as int),
            blocks_view(sorted@) == sort_blocks(orig.subrange(0, i)),
        decreases rest@.len(),
    {
        let ghost r0 = rest@;
        let b = rest.remove(0);
        proof {
            assert(blocks_view(r0).len() == r0.len());
            assert(b == r0[0]);
            assert(blocks_view(r0)[0] == r0[0]@);
            assert(b@ == orig.subrange(i, orig.len() as int)[0]);
            assert(rest@ == r0.remove(0));
            assert forall|j: int| 0 <= j < rest@.len() implies blocks_view(rest@)[j]
                == orig.subrange(i + 1, orig.len() as int)[j] by {
                assert(rest@[j] == r0[j + 1]);
                assert(blocks_view(r0)[j + 1] == orig.subrange(i, orig.len() as int)[j + 1]);
            }
            assert(blocks_view(rest@) =~= orig.subrange(i + 1, orig.len() as int));
        }
        insert_block_vec(&mut sorted, b);
        proof {
            let pre = orig.subrange(0, i);
            let cur = orig.subrange(0, i + 1);
            assert(cur.drop_last() =~= pre);
            assert(cur.last() == orig[i]);
            i = i + 1;
        }
    }
    proof {
        assert(orig.subrange(0, orig.len() as int) =~= orig);
    }
    let ghost sv = blocks_view(sorted@);
    let mut out: Vec<PromptBlock> = Vec::new();
    let ghost mut k: int = 0;
    while sorted.len() > 0
        invariant
            0 <= k <= sv.len(),
            blocks_view(sorted@) == sv.subrange(k, sv.len() as int),
            blocks_view(out@) == enabled_only(sv.subrange(0, k)),
        decreases sorted@.len(),
    {
        let ghost r0 = sorted@;
        let b = sorted.remove(0);
        proof {
            assert(blocks_view(r0).len() == r0.len());
            assert(b == r0[0]);
            assert(blocks_view(r0)[0] == r0[0]@);
            assert(b@ == sv.subrange(k, sv.len() as int)[0]);
            assert(sorted@ == r0.remove(0));
            assert forall|j: int| 0 <= j < sorted@.len() implies blocks_view(sorted@)[j]
                == sv.subrange(k + 1, sv.len() as int)[j] by {
                assert(sorted@[j] == r0[j + 1]);
                assert(blocks_view(r0)[j + 1] == sv.subrange(k, sv.len() as int)[j + 1]);
            }
            assert(blocks_view(sorted@) =~= sv.subrange(k + 1, sv.len() as int));
            let pre = sv.subrange(0, k);
            let cur = sv.subrange(0, k + 1);
            assert(cur.drop_last() =~= pre);
            assert(cur.last() == sv[k]);
        }
        if b.enabled {
            out.push(b);
        }
        proof {
            assert(blocks_view(out@) =~= enabled_only(sv.subrange(0, k + 1)));
            k = k + 1;
        }
    }
    proof {
        assert(sv.subrange(0, sv.len() as int) =~= sv);
    }
    out
}

} // verus!
