use vstd::prelude::*;

use crate::skeleton::BoneId;

verus! {

/// The bones of the humanoid skeleton in the order they are added, each with
/// its parent: hip, waist, chest, neck and head; the left and right legs
/// (upper leg, leg, foot) under the hip; the left and right arms (shoulder,
/// upper arm, forearm, hand) under the neck.
pub open spec fn humanoid_table() -> Seq<(BoneId, Option<BoneId>)> {
    seq![
        (0u8, None), (1u8, Some(0u8)), (2u8, Some(1u8)), (3u8, Some(2u8)), (4u8, Some(3u8)),
        (10u8, Some(0u8)), (11u8, Some(10u8)), (12u8, Some(11u8)),
        (20u8, Some(0u8)), (21u8, Some(20u8)), (22u8, Some(21u8)),
        (30u8, Some(3u8)), (31u8, Some(30u8)), (32u8, Some(31u8)), (33u8, Some(32u8)),
        (40u8, Some(3u8)), (41u8, Some(40u8)), (42u8, Some(41u8)), (43u8, Some(42u8)),
    ]
}

/// The humanoid hierarchy: each bone in the order it is added, with its parent.
pub fn humanoid_hierarchy() -> (t: Vec<(BoneId, Option<BoneId>)>)
    ensures
        t@ == humanoid_table(),
{
    let t = vec![
        (0u8, None), (1u8, Some(0u8)), (2u8, Some(1u8)), (3u8, Some(2u8)), (4u8, Some(3u8)),
        (10u8, Some(0u8)), (11u8, Some(10u8)), (12u8, Some(11u8)),
        (20u8, Some(0u8)), (21u8, Some(20u8)), (22u8, Some(21u8)),
        (30u8, Some(3u8)), (31u8, Some(30u8)), (32u8, Some(31u8)), (33u8, Some(32u8)),
        (40u8, Some(3u8)), (41u8, Some(40u8)), (42u8, Some(41u8)), (43u8, Some(42u8)),
    ];
    assert(t@ =~= humanoid_table());
    t
}

/// The parent entry of bone `id` in a hierarchy, a later entry for the same
/// bone replacing an earlier one: `None` when the bone is not in it, else
/// `Some` of its parent (`None` for a root).
pub open spec fn parent_in(table: Seq<(BoneId, Option<BoneId>)>, id: BoneId) -> Option<Option<BoneId>>
    decreases table.len(),
{
    if table.len() == 0 {
        None
    } else if table.last().0 == id {
        Some(table.last().1)
    } else {
        parent_in(table.drop_last(), id)
    }
}

/// The bones visited walking from `id` towards the root, `id` first, at most
/// `n` of them; the walk stops after a root or at a bone not in the hierarchy.
pub open spec fn chain_from(table: Seq<(BoneId, Option<BoneId>)>, id: BoneId, n: nat) -> Seq<BoneId>
    decreases n,
{
    if n == 0 {
        Seq::empty()
    } else {
        match parent_in(table, id) {
            None => Seq::empty(),
            Some(None) => seq![id],
            Some(Some(p)) => seq![id] + chain_from(table, p, (n - 1) as nat),
        }
    }
}

/// The children of bone `id`, in the order they were added.
pub open spec fn children_in(table: Seq<(BoneId, Option<BoneId>)>, id: BoneId) -> Seq<BoneId>
    decreases table.len(),
{
    if table.len() == 0 {
        Seq::empty()
    } else if table.last().1 == Some(id) {
        children_in(table.drop_last(), id).push(table.last().0)
    } else {
        children_in(table.drop_last(), id)
    }
}

/// The parent entry of bone `id`: `None` when it is not in the hierarchy,
/// else `Some` of its parent.
pub fn parent_of(table: &Vec<(BoneId, Option<BoneId>)>, id: BoneId) -> (r: Option<Option<BoneId>>)
    ensures
        r == parent_in(table@, id),
{
    let mut i = table.len();
    assert(table@.take(i as int) =~= table@);
    while i > 0
        invariant
            i <= table@.len(),
            parent_in(table@, id) == parent_in(table@.take(i as int), id),
        decreases i,
    {
        assert(table@.take(i as int).drop_last() =~= table@.take(i - 1));
        assert(table@.take(i as int).last() == table@[i - 1]);
        if table[i - 1].0 == id {
            return Some(table[i - 1].1);
        }
        i = i - 1;
    }
    None
}

/// The bones visited walking from `start` towards the root, as the solver
/// walks them: `start` first, then each parent in turn, stopping after a root
/// or at a bone not in the hierarchy, and after at most as many bones as the
/// hierarchy has.
pub fn parent_chain(table: &Vec<(BoneId, Option<BoneId>)>, start: BoneId) -> (v: Vec<BoneId>)
    ensures
        v@ == chain_from(table@, start, table@.len()),
{
    let n = table.len();
    let mut v: Vec<BoneId> = Vec::new();
    let mut cur = start;
    let mut k: usize = 0;
    loop
        invariant_except_break
            k <= n,
            n == table@.len(),
            v@ + chain_from(table@, cur, (n - k) as nat) == chain_from(table@, start, n as nat),
        ensures
            v@ == chain_from(table@, start, n as nat),
        decreases n - k,
    {
        if k == n {
            assert(v@ + Seq::<BoneId>::empty() =~= v@);
            break;
        }
        match parent_of(table, cur) {
            None => {
                assert(v@ + Seq::<BoneId>::empty() =~= v@);
                break;
            },
            Some(None) => {
                v.push(cur);
                break;
            },
            Some(Some(p)) => {
                let ghost before = v@;
                v.push(cur);
                assert(before + (seq![cur] + chain_from(table@, p, (n - k - 1) as nat)) =~= v@
                    + chain_from(table@, p, (n - k - 1) as nat));
                cur = p;
                k = k + 1;
            },
        }
    }
    v
}

/// The children of bone `id`, in the order they were added.
pub fn children_of(table: &Vec<(BoneId, Option<BoneId>)>, id: BoneId) -> (v: Vec<BoneId>)
    ensures
        v@ == children_in(table@, id),
{
    let mut v: Vec<BoneId> = Vec::new();
    let mut i: usize = 0;
    while i < table.len()
        invariant
            i <= table@.len(),
            v@ == children_in(table@.take(i as int), id),
        decreases table.len() - i,
    {
        assert(table@.take(i + 1).drop_last() =~= table@.take(i as int));
        assert(table@.take(i + 1).last() == table@[i as int]);
        if table[i].1 == Some(id) {
            v.push(table[i].0);
        }
        i = i + 1;
    }
    assert(table@.take(table@.len() as int) =~= table@);
    v
}

/// Where bone `id` sits in a hierarchy: the last position that lists it.
pub open spec fn lists_last_at(table: Seq<(BoneId, Option<BoneId>)>, id: BoneId, i: int) -> bool {
    0 <= i < table.len() && table[i].0 == id && forall|j: int| i < j < table.len() ==> table[j].0 != id
}

/// A bone's parent entry is the one at the last position that lists it.
pub proof fn lemma_parent_at(table: Seq<(BoneId, Option<BoneId>)>, id: BoneId, i: int)
    requires
        lists_last_at(table, id, i),
    ensures
        parent_in(table, id) == Some(table[i].1),
    decreases table.len(),
{
    if i < table.len() - 1 {
        assert(table.drop_last()[i] == table[i]);
        assert forall|j: int| i < j < table.drop_last().len() implies table.drop_last()[j].0 != id by {
            assert(table.drop_last()[j] == table[j]);
        }
        lemma_parent_at(table.drop_last(), id, i);
    }
}

/// A bone that no position lists has no parent entry.
pub proof fn lemma_parent_absent(table: Seq<(BoneId, Option<BoneId>)>, id: BoneId)
    requires
        forall|j: int| 0 <= j < table.len() ==> table[j].0 != id,
    ensures
        parent_in(table, id) is None,
    decreases table.len(),
{
    if table.len() > 0 {
        assert forall|j: int| 0 <= j < table.drop_last().len() implies table.drop_last()[j].0 != id by {
            assert(table.drop_last()[j] == table[j]);
        }
        lemma_parent_absent(table.drop_last(), id);
    }
}

/// Each bone of the humanoid hierarchy is listed once, and its parent entry
/// is the parent it was added with.
pub proof fn lemma_humanoid_parents(k: int)
    requires
        0 <= k < 19,
    ensures
        parent_in(humanoid_table(), humanoid_table()[k].0) == Some(humanoid_table()[k].1),
        forall|j: int| 0 <= j < 19 && j != k ==> humanoid_table()[j].0 != humanoid_table()[k].0,
{
    let t = humanoid_table();
    assert(t.len() == 19);
    assert(forall|a: int, b: int| 0 <= a < b < 19 ==> t[a].0 < t[b].0);
    lemma_parent_at(t, t[k].0, k);
}

/// From every bone of the humanoid the walk towards the root ends at the hip:
/// from the head, the feet and the hands it passes exactly these bones.
pub proof fn lemma_humanoid_chains()
    ensures
        chain_from(humanoid_table(), 4, 19) == seq![4u8, 3, 2, 1, 0],
        chain_from(humanoid_table(), 12, 19) == seq![12u8, 11, 10, 0],
        chain_from(humanoid_table(), 22, 19) == seq![22u8, 21, 20, 0],
        chain_from(humanoid_table(), 33, 19) == seq![33u8, 32, 31, 30, 3, 2, 1, 0],
        chain_from(humanoid_table(), 43, 19) == seq![43u8, 42, 41, 40, 3, 2, 1, 0],
{
    let t = humanoid_table();
    assert(t.len() == 19);
    lemma_humanoid_parents(0);
    lemma_humanoid_parents(1);
    lemma_humanoid_parents(2);
    lemma_humanoid_parents(3);
    lemma_humanoid_parents(4);
    lemma_humanoid_parents(5);
    lemma_humanoid_parents(6);
    lemma_humanoid_parents(7);
    lemma_humanoid_parents(8);
    lemma_humanoid_parents(9);
    lemma_humanoid_parents(10);
    lemma_humanoid_parents(11);
    lemma_humanoid_parents(12);
    lemma_humanoid_parents(13);
    lemma_humanoid_parents(14);
    lemma_humanoid_parents(15);
    lemma_humanoid_parents(16);
    lemma_humanoid_parents(17);
    lemma_humanoid_parents(18);
    assert(parent_in(t, 0) == Some(t[0].1));
    assert(parent_in(t, 1) == Some(t[1].1));
    assert(parent_in(t, 2) == Some(t[2].1));
    assert(parent_in(t, 3) == Some(t[3].1));
    assert(parent_in(t, 4) == Some(t[4].1));
    assert(parent_in(t, 10) == Some(t[5].1));
    assert(parent_in(t, 11) == Some(t[6].1));
    assert(parent_in(t, 12) == Some(t[7].1));
    assert(parent_in(t, 20) == Some(t[8].1));
    assert(parent_in(t, 21) == Some(t[9].1));
    assert(parent_in(t, 22) == Some(t[10].1));
    assert(parent_in(t, 30) == Some(t[11].1));
    assert(parent_in(t, 31) == Some(t[12].1));
    assert(parent_in(t, 32) == Some(t[13].1));
    assert(parent_in(t, 33) == Some(t[14].1));
    assert(parent_in(t, 40) == Some(t[15].1));
    assert(parent_in(t, 41) == Some(t[16].1));
    assert(parent_in(t, 42) == Some(t[17].1));
    assert(parent_in(t, 43) == Some(t[18].1));
    reveal_with_fuel(chain_from, 9);
    assert(chain_from(t, 4, 19) =~= seq![4u8, 3, 2, 1, 0]);
    assert(chain_from(t, 12, 19) =~= seq![12u8, 11, 10, 0]);
    assert(chain_from(t, 22, 19) =~= seq![22u8, 21, 20, 0]);
    assert(chain_from(t, 33, 19) =~= seq![33u8, 32, 31, 30, 3, 2, 1, 0]);
    assert(chain_from(t, 43, 19) =~= seq![43u8, 42, 41, 40, 3, 2, 1, 0]);
}

} // verus!
